use hybrid_mount::compile::mirror_target;
use hybrid_mount::capabilities::BackendCapabilities;
use hybrid_mount::config::Config;
use hybrid_mount::daemon::validate_url;
use hybrid_mount::defs::{should_keep_existing_mount_before_overlay, should_skip_overlay_ksu_umount};
use hybrid_mount::domain::{DefaultMode, ModuleRules, MountMode};
use hybrid_mount::flavor::{strip_toml_preamble, BuildFlavor};
use hybrid_mount::kasumi::{KasumiProbe, StatusCache};
use hybrid_mount::module_status::running_description;
use hybrid_mount::path::{normalize_path, normalize_umount_path, resolve_path_with_root, resolve_with_probes};
use hybrid_mount::storage::{should_cleanup_image, StorageMode};
use hybrid_mount::umount::is_ignored_partition;
use hybrid_mount::validation::{extract_module_id, validate_module_id};

fn dir_in(parent: &std::path::Path, name: &str) -> tempfile::TempDir {
    tempfile::Builder::new().prefix(name).rand_bytes(0).tempdir_in(parent).unwrap()
}

fn dirs_in(parent: &std::path::Path, names: &[&str]) -> Vec<tempfile::TempDir> {
    let mut made: Vec<tempfile::TempDir> = Vec::new();
    for name in names {
        let base = match made.last() {
            Some(d) => d.path().to_path_buf(),
            None => parent.to_path_buf(),
        };
        made.push(dir_in(&base, name));
    }
    made
}

fn make_rules(default_mode: MountMode, paths: &[(&str, MountMode)]) -> ModuleRules {
    ModuleRules {
        default_mode,
        paths: paths.iter().map(|(k, v)| (k.to_string(), *v)).collect(),
    }
}

#[test]
fn validate_url_accepts_valid_and_rejects_invalid() {
    assert!(validate_url("https://example.com").is_ok());
    assert!(validate_url("http://localhost:8080/path?q=1").is_ok());

    assert!(validate_url("ftp://example.com").is_err());
    assert!(validate_url("javascript:alert(1)").is_err());
    assert!(validate_url("file:///etc/passwd").is_err());

    assert!(validate_url("https://example.com --es extra value").is_err());

    assert!(validate_url("https://example.com\n").is_err());
    assert!(validate_url("https://example.com\r\n").is_err());
    assert!(validate_url("https://ex\0ample.com").is_err());
}

#[test]
fn running_description_keeps_kasumi_zero_count_when_enabled() {
    let desc = running_description(BuildFlavor::Full, StorageMode::Tmpfs, true, 2, 3, 0, 0);

    assert!(desc.contains("Kasumi:0"));
    assert!(desc.contains("Overlay:2"));
    assert!(desc.contains("Magic:3"));
}

#[test]
fn running_description_hides_kasumi_in_lite_builds() {
    let desc = running_description(BuildFlavor::Lite, StorageMode::Ext4, true, 2, 3, 0, 0);

    assert!(!desc.contains("Kasumi:"));
    assert!(desc.contains("Overlay:2"));
    assert!(desc.contains("Magic:3"));
}

#[test]
fn running_description_hides_kasumi_count_when_disabled() {
    let desc = running_description(BuildFlavor::Full, StorageMode::Tmpfs, false, 2, 3, 0, 0);

    assert!(!desc.contains("Kasumi:"));
    assert!(desc.contains("Overlay:2"));
    assert!(desc.contains("Magic:3"));
}

#[test]
fn running_description_shows_blacklisted_count_when_nonzero() {
    let desc = running_description(BuildFlavor::Full, StorageMode::Tmpfs, false, 2, 3, 0, 1);

    assert!(desc.contains("Blacklist:1"));
}

#[test]
fn running_description_hides_blacklisted_count_when_zero() {
    let desc = running_description(BuildFlavor::Full, StorageMode::Tmpfs, false, 2, 3, 0, 0);

    assert!(!desc.contains("Blacklist:"));
}

#[test]
fn storage_mode_as_str_matches_expected_values() {
    assert_eq!(StorageMode::Tmpfs.as_str(), "tmpfs");
    assert_eq!(StorageMode::Ext4.as_str(), "ext4");
}

#[test]
fn cleanup_image_only_for_ext4_mode() {
    assert!(!should_cleanup_image(StorageMode::Tmpfs));
    assert!(should_cleanup_image(StorageMode::Ext4));
}

#[test]
fn overlay_etc_root_skips_ksu_umount_when_pm_config_is_present() {
    let temp = tempfile::TempDir::new().unwrap();
    let lowerdir = temp.path().join("Slide/system/etc");
    let _made = dirs_in(temp.path(), &["Slide", "system", "etc", "permissions"]);

    assert!(should_skip_overlay_ksu_umount(
        "/system/etc",
        &vec![lowerdir.display().to_string()]
    ));
}

#[test]
fn overlay_etc_root_does_not_skip_ksu_umount_for_unrelated_children() {
    let temp = tempfile::TempDir::new().unwrap();
    let lowerdir = temp.path().join("module/system/etc");
    let _made = dirs_in(temp.path(), &["module", "system", "etc", "init"]);

    assert!(!should_skip_overlay_ksu_umount(
        "/system/etc",
        &vec![lowerdir.display().to_string()]
    ));
}

#[test]
fn overlay_non_etc_scan_path_skips_ksu_umount_without_content_probe() {
    let temp = tempfile::TempDir::new().unwrap();
    let lowerdir = temp.path().join("Slide/system/priv-app");
    let layers = vec![lowerdir.display().to_string()];

    assert!(should_skip_overlay_ksu_umount("/system/priv-app", &layers));
    assert!(should_skip_overlay_ksu_umount("/product/overlay", &layers));
    assert!(should_skip_overlay_ksu_umount(
        "/my_company/overlay/CustomOplusFwkResOverlay.apk",
        &layers
    ));
}

#[test]
fn package_manager_scan_paths_keep_existing_mount_before_overlay() {
    assert!(should_keep_existing_mount_before_overlay("/system/app"));
    assert!(should_keep_existing_mount_before_overlay("/system/priv-app"));
    assert!(should_keep_existing_mount_before_overlay("/product/overlay"));
    assert!(!should_keep_existing_mount_before_overlay("/system/bin"));
}

#[test]
fn normalizes_equivalent_umount_paths() {
    assert_eq!(normalize_umount_path("/system/bin/"), "/system/bin");
    assert_eq!(normalize_umount_path("/system/bin///"), "/system/bin");
    assert_eq!(normalize_umount_path("/system//bin"), "/system/bin");
    assert_eq!(normalize_umount_path("/system/./bin"), "/system/bin");
    assert_eq!(normalize_umount_path("/"), "/");
    assert_eq!(normalize_umount_path("///"), "/");
}

#[test]
fn skips_exact_ignored_partition() {
    assert!(is_ignored_partition("/system/lib"));
    assert!(is_ignored_partition("/system/lib64"));
    assert!(is_ignored_partition("/vendor/lib"));
    assert!(is_ignored_partition("/vendor/lib64"));
}

#[test]
fn skips_descendants_of_ignored_partition() {
    assert!(is_ignored_partition("/system/lib64/foo"));
    assert!(is_ignored_partition("/vendor/lib/arm/libfoo.so"));
}

#[test]
fn does_not_skip_siblings_with_shared_prefix() {
    assert!(!is_ignored_partition("/system/lib_extra"));
    assert!(!is_ignored_partition("/system/lib64_other"));
    assert!(!is_ignored_partition("/vendor/library"));
}

#[test]
fn does_not_skip_unrelated_paths() {
    assert!(!is_ignored_partition("/product"));
    assert!(!is_ignored_partition("/system/etc"));
    assert!(!is_ignored_partition("/data/adb/hybrid-mount/run/staging_x"));
}

#[test]
fn validate_module_id_accepts_and_rejects() {
    assert!(validate_module_id("MyModule").is_ok());
    assert!(validate_module_id("ab").is_ok());
    assert!(validate_module_id("a1_b.c-d").is_ok());
    assert!(validate_module_id("ABC123").is_ok());

    assert!(validate_module_id("").is_err());
    assert!(validate_module_id("1abc").is_err());
    assert!(validate_module_id("-abc").is_err());
    assert!(validate_module_id("ab/cd").is_err());
    assert!(validate_module_id("ab cd").is_err());
    assert!(validate_module_id("ab@cd").is_err());
}

#[test]
fn extract_from_module_prop() {
    let tmp = tempfile::TempDir::new().unwrap();
    let module_dir = tmp.path().join("my_module");
    let made = dirs_in(tmp.path(), &["my_module"]);
    let _prop = tempfile::Builder::new()
        .prefix("module.prop")
        .rand_bytes(0)
        .tempfile_in(made[0].path())
        .unwrap();

    let id = extract_module_id(&module_dir.join("system/app").display().to_string());
    assert_eq!(id.as_deref(), Some("my_module"));
}

#[test]
fn extract_returns_none_without_module_prop() {
    let tmp = tempfile::TempDir::new().unwrap();
    let module_dir = tmp.path().join("fallback_mod");
    let _made = dirs_in(tmp.path(), &["fallback_mod", "sub", "dir"]);
    let id = extract_module_id(&module_dir.join("sub/dir/leaf").display().to_string());
    assert_eq!(id, None);
}

#[test]
fn extract_at_root_returns_none() {
    let id = extract_module_id("/");
    assert_eq!(id, None);
}

#[test]
fn strips_leading_comment_block_before_toml() {
    let input = r#"# Copyright (C) 2026 YuzakiKokuban <heibanbaize@gmail.com>
#

key = "value"
"#;

    assert_eq!(strip_toml_preamble(input), "key = \"value\"\n");
}

#[test]
fn keeps_non_comment_toml_untouched() {
    let input = "key = \"value\"\n";

    assert_eq!(strip_toml_preamble(input), input);
}

#[test]
fn module_rules_longest_prefix_match() {
    let rules = make_rules(
        MountMode::Overlay,
        &[
            ("system", MountMode::Magic),
            ("system/app", MountMode::Kasumi),
            ("system/app/private", MountMode::Overlay),
        ],
    );

    assert_eq!(rules.get_mode("vendor"), MountMode::Overlay);
    assert_eq!(rules.get_mode("system"), MountMode::Magic);
    assert_eq!(rules.get_mode("system/app"), MountMode::Kasumi);
    assert_eq!(rules.get_mode("system/app/private"), MountMode::Overlay);
    assert_eq!(rules.get_mode("system/app/private/lib"), MountMode::Overlay);
}

#[test]
fn module_rules_path_component_boundary() {
    let rules = make_rules(MountMode::Overlay, &[("sys", MountMode::Magic)]);

    assert_eq!(rules.get_mode("sys"), MountMode::Magic);
    assert_eq!(rules.get_mode("sys/app"), MountMode::Magic);
    assert_eq!(rules.get_mode("system"), MountMode::Overlay);
    assert_eq!(rules.get_mode("syscall"), MountMode::Overlay);
}

#[test]
fn default_mode_and_config_integration() {
    let mut config = Config::with_mount_source("KSU".to_string());
    config.moduledir = "/data/adb/modules".to_string();
    config.default_mode = DefaultMode::Overlay;

    assert_eq!(config.moduledir, "/data/adb/modules");
    assert_eq!(config.default_mode, DefaultMode::Overlay);
    assert!(!config.disable_umount);
    assert!(matches!(config.mountsource.as_str(), "APatch" | "KSU"));
}

#[test]
fn backend_capabilities_detect_does_not_panic() {
    let config = Config::with_mount_source("KSU".to_string());
    let mut cache = StatusCache::new();
    let probe = KasumiProbe { kernel_supported: false, module_loaded: false, protocol_version: None };
    let capabilities = BackendCapabilities::detect(&config, BuildFlavor::Full, &mut cache, &probe, 1);

    let _ = capabilities.can_use_kasumi();
    let _ = capabilities.kasumi_status();
}

#[test]
fn normalized_absolute_paths_are_canonical() {
    assert_eq!(normalize_path("/system/./bin/../lib"), "/system/lib");
    assert_eq!(normalize_path("/../.."), "/");
    assert_eq!(normalize_path("//a//b/./c/"), "/a/b/c");
    for p in ["/system/./bin/../lib", "/../..", "//a//b/./c/", "/x/../../y/."] {
        let once = normalize_path(p);
        assert!(once.starts_with('/'));
        assert!(once.split('/').skip(1).all(|c| once == "/" || (c != "" && c != "." && c != "..")));
        assert_eq!(normalize_path(&once), once);
    }
}

#[test]
fn paths_resolve_under_a_system_root() {
    // Under "/", the walk climbs to an existing ancestor and puts the names back.
    assert_eq!(resolve_with_probes("/", "system/etc/hosts", &vec![false, true, true]), "/system/etc/hosts");
    // Under another root, the result is given relative to it.
    assert_eq!(resolve_with_probes("/mnt/root", "/vendor/lib/a.so", &vec![true, true]), "/vendor/lib/a.so");
    // When nothing exists, not even the root, the parent is kept and the dropped names follow it.
    assert_eq!(
        resolve_with_probes("/mnt/root", "/a/b", &vec![false, false]),
        "/a/a/b"
    );
    // A path without a final name is answered in its absolute form.
    assert_eq!(resolve_with_probes("/", "a/..", &vec![]), "/a/..");
    // On this machine "/" exists, so a path under "/" resolves to itself.
    assert_eq!(resolve_path_with_root("/", "/no/such/dir/file"), "/no/such/dir/file");
}

#[test]
fn mirror_targets_resolve_under_the_live_root() {
    assert_eq!(mirror_target("system/etc/hosts"), "/system/etc/hosts");
}
