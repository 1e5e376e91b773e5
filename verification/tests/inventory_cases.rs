use hybrid_mount::config::Config;
use hybrid_mount::defs::{
    DISABLE_FILE_NAME, MOUNT_ERROR_FILE_NAME, REMOVE_FILE_NAME, SKIP_MOUNT_FILE_NAME,
};
use hybrid_mount::domain::{DefaultMode, ModuleRules, MountMode};
use hybrid_mount::flavor::BuildFlavor;
use hybrid_mount::inventory::{
    case_variants, dir_contains_entry_case_insensitive, has_mount_block_marker, load_module_rules,
    module_mount_mode_marker, mount_block_markers, scan, ModuleDirEntry,
};

fn strings(v: &[&str]) -> Vec<String> {
    v.iter().map(|s| s.to_string()).collect()
}

/// A directory below the module root, as the scan reads it.
fn module_dir(name: &str, prop: Option<&str>) -> ModuleDirEntry {
    let mut entries = Vec::new();
    if prop.is_some() {
        entries.push("module.prop".to_string());
    }
    ModuleDirEntry {
        name: name.to_string(),
        is_dir: true,
        module_prop: prop.map(|p| p.to_string()),
        entries,
    }
}

fn scan_one(entry: ModuleDirEntry) -> Vec<String> {
    let config = Config::with_mount_source("KSU".to_string());
    scan("/tmp/modules", &config, BuildFlavor::Full, &vec![entry])
        .into_iter()
        .map(|m| m.id)
        .collect()
}

#[test]
fn scan_skips_missing_module_prop() {
    assert!(scan_one(module_dir("alpha", None)).is_empty());
}

#[test]
fn scan_skips_invalid_module_dir_name() {
    assert!(scan_one(module_dir("bad:name", Some("id=bad:name\n"))).is_empty());
}

#[test]
fn scan_requires_prop_id_to_match_directory_when_present() {
    assert!(scan_one(module_dir("alpha", Some("id=beta\n"))).is_empty());
}

#[test]
fn scan_requires_module_prop_id() {
    assert!(scan_one(module_dir("alpha", Some("name=Alpha\n"))).is_empty());
}

#[test]
fn scan_rejects_invalid_module_prop_id() {
    assert!(scan_one(module_dir("alpha", Some("id=1alpha\n"))).is_empty());
}

#[test]
fn scan_accepts_valid_module_with_matching_prop_id() {
    let ids = scan_one(module_dir("alpha", Some("id=alpha\n")));
    assert_eq!(ids.len(), 1);
    assert_eq!(ids[0], "alpha");
}

#[test]
fn scan_trims_module_prop_id_and_ignores_comments() {
    let ids = scan_one(module_dir("alpha", Some("# id=wrong\n  id = alpha  \n")));
    assert_eq!(ids.len(), 1);
    assert_eq!(ids[0], "alpha");
}

#[test]
fn scan_places_module_under_source_dir_and_orders_by_id() {
    let config = Config::with_mount_source("KSU".to_string());
    let entries = vec![
        module_dir("beta", Some("id=beta\n")),
        module_dir("alpha", Some("id=alpha\n")),
    ];
    let modules = scan("/data/adb/modules", &config, BuildFlavor::Full, &entries);
    assert_eq!(modules.len(), 2);
    assert_eq!(modules[0].id, "alpha");
    assert_eq!(modules[0].source_path, "/data/adb/modules/alpha");
    assert_eq!(modules[1].id, "beta");
}

#[test]
fn module_mount_mode_marker_detects_mode_files() {
    assert_eq!(module_mount_mode_marker(&Vec::new()), None);
    assert_eq!(
        module_mount_mode_marker(&strings(&["MAGIC"])),
        Some(MountMode::Magic)
    );
}

#[test]
fn module_mount_mode_marker_prefers_overlay_when_multiple_markers_exist() {
    assert_eq!(
        module_mount_mode_marker(&strings(&["OVERLAY", "MAGIC"])),
        Some(MountMode::Overlay)
    );
}

#[test]
fn module_mount_mode_marker_ignores_kasumi_for_nano() {
    assert_eq!(module_mount_mode_marker(&strings(&["KASUMI"])), None);
}

#[test]
fn load_module_rules_uses_mode_marker_for_nano_default() {
    let mut config = Config::with_mount_source("KSU".to_string());
    config.moduledir = "/tmp/modules".to_string();
    config.default_mode = DefaultMode::Overlay;
    config
        .rules
        .push(("module".to_string(), ModuleRules::with_default(MountMode::Overlay)));
    let marker = module_mount_mode_marker(&strings(&["MaGiC"]));
    assert_eq!(
        load_module_rules(&config, "module", marker).default_mode,
        MountMode::Magic
    );
}

#[test]
fn mount_block_markers_detect_case_insensitive_files() {
    let entries = strings(&["DISABLE", "ReMoVe", "MOUNT_ERROR", "skip_Mount"]);
    let markers = mount_block_markers(&entries);
    assert_eq!(
        markers,
        vec![
            DISABLE_FILE_NAME,
            REMOVE_FILE_NAME,
            MOUNT_ERROR_FILE_NAME,
            SKIP_MOUNT_FILE_NAME,
        ]
    );
    assert!(has_mount_block_marker(&entries));
}

#[test]
fn marker_removal_takes_every_letter_case() {
    let entries = strings(&["Disable", "module.prop", "DISABLE", "disabled", "disable"]);
    let gone = case_variants(&entries, DISABLE_FILE_NAME);
    assert_eq!(gone, strings(&["Disable", "DISABLE", "disable"]));
    let rest: Vec<String> = entries.iter().filter(|e| !gone.contains(e)).cloned().collect();
    assert_eq!(rest, strings(&["module.prop", "disabled"]));
    assert!(!dir_contains_entry_case_insensitive(&rest, DISABLE_FILE_NAME));
    assert!(case_variants(&strings(&["MOUNT_ERROR"]), DISABLE_FILE_NAME).is_empty());
}
