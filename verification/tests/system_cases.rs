use std::path::Path;

use hybrid_mount::mount_base::{fallback_mount_path, get_mnt, random_mount_path};
use hybrid_mount::partitions::managed_partition_names;

#[test]
fn generated_mount_path_uses_hybrid_prefix() {
    let generated = get_mnt(4242);
    let path = Path::new(&generated);
    let name = path.file_name().and_then(|name| name.to_str()).unwrap();

    assert_eq!(
        path.parent().and_then(|parent| parent.to_str()),
        Some("/mnt")
    );
    assert!(name.starts_with("hm_"));
}

#[test]
fn mount_path_candidates_have_fixed_shape() {
    let suffix: Vec<char> = "a1B2c3D4e5".chars().collect();
    assert_eq!(random_mount_path(&suffix), "/mnt/hm_a1B2c3D4e5");
    assert_eq!(fallback_mount_path(4242), "/mnt/hm_mnt_4242");
    assert_eq!(fallback_mount_path(0), "/mnt/hm_mnt_0");
}

#[test]
fn generated_mount_path_is_random_or_fallback() {
    let generated = get_mnt(77);
    let name = generated.strip_prefix("/mnt/hm_").unwrap();
    assert!(
        name == "mnt_77"
            || (name.len() == 10 && name.chars().all(|c| c.is_ascii_alphanumeric()))
    );
}

#[test]
fn only_keep_existing_root_partitions() {
    let partitions = managed_partition_names();

    for name in &partitions {
        assert!(Path::new("/").join(name).symlink_metadata().is_ok());
    }
}
