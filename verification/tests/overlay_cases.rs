use hybrid_mount::config::Config;
use hybrid_mount::overlay_mount::{
    child_mount_action, child_mount_points_in, lowerdir_config, overlay_mount_data,
    overlay_rw_dirs, overlay_source, plan_overlay_base, relative_to_root, staging_dir,
    ChildMount, LayerStack, LowerProbe, MAX_LAYERS,
};
use hybrid_mount::plan::OverlayOperation;

fn strings(v: &[&str]) -> Vec<String> {
    v.iter().map(|s| s.to_string()).collect()
}

#[test]
fn library_dirs_mount_with_the_overlay_source() {
    assert_eq!(overlay_source("/system/lib64", "KSU"), "overlay");
    assert_eq!(overlay_source(" /vendor/lib ", "KSU"), "overlay");
    assert_eq!(overlay_source("/system/bin", "KSU"), "KSU");
    assert_eq!(overlay_source("/system/lib64/x", "APatch"), "APatch");
}

#[test]
fn mount_options_list_layers_and_escape_commas() {
    let layers = strings(&["/m/a,b/system", "/system"]);
    assert_eq!(lowerdir_config(&layers), "/m/a,b/system:/system");
    assert_eq!(
        overlay_mount_data(&layers, &None, &None),
        "lowerdir=/m/a\\,b/system:/system"
    );
    assert_eq!(
        overlay_mount_data(&layers, &Some("/rw/u".to_string()), &Some("/rw/w,1".to_string())),
        "lowerdir=/m/a\\,b/system:/system,upperdir=/rw/u,workdir=/rw/w\\,1"
    );
    assert_eq!(
        overlay_mount_data(&layers, &Some("/rw/u".to_string()), &None),
        "lowerdir=/m/a\\,b/system:/system"
    );
}

#[test]
fn deep_stacks_are_staged_in_chunks() {
    let lower: Vec<String> = (0..130).map(|i| format!("/m/{i}")).collect();
    let mut stack = LayerStack::new(&lower, "/system");
    assert!(stack.needs_staging_now());
    let (chunk, remaining) = stack.next_chunk();
    assert_eq!(remaining, 131 - (MAX_LAYERS - 1));
    assert_eq!(chunk.len(), MAX_LAYERS - 1);
    assert_eq!(chunk.last().unwrap(), "/system");
    assert_eq!(chunk[0], "/m/68");
    stack.staged("/run/s1".to_string());
    assert_eq!(stack.layers_now().len(), 131 - (MAX_LAYERS - 2));
    assert_eq!(stack.layers_now().last().unwrap(), "/run/s1");
    assert!(stack.needs_staging_now());
    let (chunk, _) = stack.next_chunk();
    assert_eq!(chunk.last().unwrap(), "/run/s1");
    stack.staged("/run/s2".to_string());
    assert!(!stack.needs_staging_now());
    assert_eq!(stack.layers_now().len(), 131 - 2 * (MAX_LAYERS - 2));
    assert_eq!(stack.cleanup_order(), strings(&["/run/s2", "/run/s1"]));

    let small = LayerStack::new(&strings(&["/m/a"]), "/system");
    assert!(!small.needs_staging_now());
    assert_eq!(small.layers_now(), strings(&["/m/a", "/system"]));
    assert!(small.cleanup_order().is_empty());
    assert_eq!(staging_dir(17, 3), "/data/adb/hybrid-mount/run/staging_17_3");
}

#[test]
fn child_mounts_are_those_strictly_below_the_root() {
    let table = vec![
        ("/system".to_string(), true),
        ("/system/bin/app".to_string(), true),
        ("/system/apex".to_string(), true),
        ("/system_ext".to_string(), true),
        ("/system/apex".to_string(), true),
        ("/system/odd".to_string(), false),
        ("/vendor".to_string(), true),
    ];
    assert_eq!(
        child_mount_points_in("/system", &table),
        strings(&["/system/apex", "/system/bin/app"])
    );
    assert_eq!(child_mount_points_in("/system/", &table), strings(&["/system/apex", "/system/bin/app"]));
    assert_eq!(relative_to_root("/system/apex", "/system"), "/apex");
    assert_eq!(relative_to_root("/a/system/b", "/system"), "/a/b");
    assert_eq!(relative_to_root("/other", "/system"), "/other");
    assert_eq!(relative_to_root("/x", ""), "/x");
}

#[test]
fn child_mount_decision_follows_the_layers() {
    let roots = strings(&["/m/a", "/m/b"]);
    let p = |exists, is_dir| LowerProbe { exists, is_dir };
    assert!(matches!(
        child_mount_action(&roots, "/apex", &vec![p(false, false), p(false, false)], true),
        ChildMount::Bind
    ));
    assert!(matches!(
        child_mount_action(&roots, "/apex", &vec![p(true, true), p(false, false)], false),
        ChildMount::Skip
    ));
    assert!(matches!(
        child_mount_action(&roots, "/apex", &vec![p(true, true), p(true, false)], true),
        ChildMount::Skip
    ));
    match child_mount_action(&roots, "/apex", &vec![p(true, true), p(false, false)], true) {
        ChildMount::Overlay(dirs) => assert_eq!(dirs, strings(&["/m/a/apex"])),
        other => panic!("unexpected {other:?}"),
    }
    match child_mount_action(&roots, "/apex", &vec![p(true, true), p(true, true)], true) {
        ChildMount::Overlay(dirs) => assert_eq!(dirs, strings(&["/m/a/apex", "/m/b/apex"])),
        other => panic!("unexpected {other:?}"),
    }
}

#[test]
fn overlay_base_uses_the_partition_rw_dirs_when_both_exist() {
    let op = OverlayOperation {
        partition_name: "system".to_string(),
        target: "/system/lib".to_string(),
        lowerdirs: strings(&["/mnt/hm/a/system/lib"]),
    };
    let mut config = Config::with_mount_source("KSU".to_string());
    let (upper, work) = overlay_rw_dirs("system");
    assert_eq!(upper, "/data/adb/hybrid-mount/rw/system/upperdir");
    assert_eq!(work, "/data/adb/hybrid-mount/rw/system/workdir");
    let b = plan_overlay_base(&op, &config, true, true);
    assert_eq!(b.upper.as_deref(), Some(upper.as_str()));
    assert_eq!(b.work.as_deref(), Some(work.as_str()));
    assert_eq!(b.source, "overlay");
    assert!(b.register_umount);
    assert_eq!(b.layers, op.lowerdirs);
    config.disable_umount = true;
    let b = plan_overlay_base(&op, &config, true, false);
    assert!(b.upper.is_none() && b.work.is_none());
    assert!(!b.register_umount);
}
