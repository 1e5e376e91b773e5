//! Well-known locations, marker names and the path predicates that decide
//! which mounts must stay visible to apps.

use vstd::prelude::*;

use crate::domain::{covers_chars, rule_covers};
use crate::text::{chars_eq, chars_of, slice_chars};

verus! {

pub const HYBRID_MOUNT_DIR: &'static str = "/data/adb/hybrid-mount";
pub const MODULES_DIR: &'static str = "/data/adb/modules";
pub const HYBRID_MOUNT_MODULE_DIR: &'static str = "/data/adb/modules/hybrid_mount";
pub const MODULES_IMG_FILE: &'static str = "/data/adb/hybrid-mount/modules.img";
pub const KASUMI_IMG_FILE: &'static str = "/data/adb/hybrid-mount/kasumi.img";
pub const RUN_DIR: &'static str = "/data/adb/hybrid-mount/run/";
pub const STATE_FILE: &'static str = "/data/adb/hybrid-mount/run/daemon_state.json";
pub const SOCKET_FILE: &'static str = "/data/adb/hybrid-mount/run/daemon.sock";
pub const PID_FILE: &'static str = "/data/adb/hybrid-mount/run/daemon.pid";
pub const SYSTEM_RW_DIR: &'static str = "/data/adb/hybrid-mount/rw";
pub const CONFIG_FILE: &'static str = "/data/adb/hybrid-mount/config.toml";
pub const MODULE_BLACKLIST_FILE: &'static str = "/data/adb/hybrid-mount/module_blacklist.toml";
pub const USER_HIDE_RULES_FILE: &'static str = "/data/adb/hybrid-mount/user_hide_rules.json";
pub const MODULE_PROP_FILE: &'static str = "/data/adb/modules/hybrid_mount/module.prop";
pub const KASUMI_MIRROR_DIR: &'static str = "/dev/kasumi_mirror";
pub const KASUMI_LKM_DIR: &'static str = "/data/adb/modules/hybrid_mount/kasumi_lkm";
pub const KASUMI_LKM_MODULE_NAME: &'static str = "kasumi_lkm";
pub const DISABLE_FILE_NAME: &'static str = "disable";
pub const REMOVE_FILE_NAME: &'static str = "remove";
pub const MOUNT_ERROR_FILE_NAME: &'static str = "mount_error";
pub const SKIP_MOUNT_FILE_NAME: &'static str = "skip_mount";
pub const REPLACE_DIR_FILE_NAME: &'static str = ".replace";
pub const REPLACE_DIR_XATTR: &'static str = "trusted.overlay.opaque";
pub const MAX_MERGE_JSON_DEPTH: usize = 64;

/// Partitions whose library directories keep their mounts in app
/// namespaces.
pub open spec fn ignore_umount_partitions() -> Seq<Seq<char>> {
    seq!["/vendor/lib"@, "/vendor/lib64"@, "/system/lib"@, "/system/lib64"@]
}

pub fn ignore_umount_partition_list() -> (v: Vec<&'static str>)
    ensures
        v@.map_values(|s: &str| s@) == ignore_umount_partitions(),
{
    let mut v: Vec<&'static str> = Vec::new();
    v.push("/vendor/lib");
    v.push("/vendor/lib64");
    v.push("/system/lib");
    v.push("/system/lib64");
    assert(v@.map_values(|s: &str| s@) =~= ignore_umount_partitions());
    v
}

/// Partitions other than `system` that modules may carry.
pub open spec fn managed_partitions() -> Seq<Seq<char>> {
    seq![
        "odm"@, "product"@, "system_ext"@, "vendor"@, "apex"@, "mi_ext"@, "my_bigball"@,
        "my_carrier"@, "my_company"@, "my_engineering"@, "my_heytap"@, "my_manifest"@,
        "my_preload"@, "my_product"@, "my_region"@, "my_reserve"@, "my_stock"@, "oem"@,
        "optics"@, "prism"@,
    ]
}

pub fn managed_partition_list() -> (v: Vec<&'static str>)
    ensures
        v@.map_values(|s: &str| s@) == managed_partitions(),
{
    let mut v: Vec<&'static str> = Vec::new();
    v.push("odm");
    v.push("product");
    v.push("system_ext");
    v.push("vendor");
    v.push("apex");
    v.push("mi_ext");
    v.push("my_bigball");
    v.push("my_carrier");
    v.push("my_company");
    v.push("my_engineering");
    v.push("my_heytap");
    v.push("my_manifest");
    v.push("my_preload");
    v.push("my_product");
    v.push("my_region");
    v.push("my_reserve");
    v.push("my_stock");
    v.push("oem");
    v.push("optics");
    v.push("prism");
    assert(v@.map_values(|s: &str| s@) =~= managed_partitions());
    v
}

/// Directories under `etc` that the package manager reads at boot.
pub open spec fn package_manager_etc_dirs() -> Seq<Seq<char>> {
    seq!["permissions"@, "sysconfig"@, "default-permissions"@, "preferred-apps"@]
}

pub fn package_manager_etc_dir_list() -> (v: Vec<&'static str>)
    ensures
        v@.map_values(|s: &str| s@) == package_manager_etc_dirs(),
{
    let mut v: Vec<&'static str> = Vec::new();
    v.push("permissions");
    v.push("sysconfig");
    v.push("default-permissions");
    v.push("preferred-apps");
    assert(v@.map_values(|s: &str| s@) =~= package_manager_etc_dirs());
    v
}

/// Whether `name` occurs in `v` (by text).
pub fn contains_name(v: &Vec<&'static str>, name: &[char]) -> (b: bool)
    ensures
        b == v@.map_values(|s: &str| s@).contains(name@),
{
    let ghost names = v@.map_values(|s: &str| s@);
    let mut i: usize = 0;
    while i < v.len()
        invariant
            i <= v@.len(),
            names == v@.map_values(|s: &str| s@),
            forall|j: int| 0 <= j < i ==> names[j] != name@,
        decreases v@.len() - i,
    {
        let c = chars_of(v[i]);
        if chars_eq(&c, name) {
            assert(names[i as int] == name@);
            return true;
        }
        i = i + 1;
    }
    assert(!names.contains(name@)) by {
        if names.contains(name@) {
            let j = choose|j: int| 0 <= j < names.len() && names[j] == name@;
            assert(names[j] != name@);
        }
    }
    false
}

/// Number of leading characters equal to `c`.
pub open spec fn leading_count(s: Seq<char>, c: char) -> nat
    decreases s.len(),
{
    if s.len() > 0 && s[0] == c {
        1 + leading_count(s.drop_first(), c)
    } else {
        0
    }
}

/// Number of trailing characters equal to `c`.
pub open spec fn trailing_count(s: Seq<char>, c: char) -> nat
    decreases s.len(),
{
    if s.len() > 0 && s.last() == c {
        1 + trailing_count(s.drop_last(), c)
    } else {
        0
    }
}

pub proof fn lemma_trailing_count_bound(s: Seq<char>, c: char)
    ensures
        trailing_count(s, c) <= s.len(),
    decreases s.len(),
{
    if s.len() > 0 && s.last() == c {
        lemma_trailing_count_bound(s.drop_last(), c);
    }
}

pub proof fn lemma_leading_count_bound(s: Seq<char>, c: char)
    ensures
        leading_count(s, c) <= s.len(),
    decreases s.len(),
{
    if s.len() > 0 && s[0] == c {
        lemma_leading_count_bound(s.drop_first(), c);
    }
}

/// `s` without trailing `'/'` characters, then without leading ones.
pub open spec fn strip_slashes(s: Seq<char>) -> Seq<char> {
    let t = s.take(s.len() - trailing_count(s, '/'));
    t.skip(leading_count(t, '/') as int)
}

/// The fields of `s` between occurrences of `c`, empty fields included
/// (`str::split`), after the partial field `cur`.
pub open spec fn fields_from(s: Seq<char>, c: char, cur: Seq<char>) -> Seq<Seq<char>>
    decreases s.len(),
{
    if s.len() == 0 {
        seq![cur]
    } else if s[0] == c {
        seq![cur] + fields_from(s.drop_first(), c, seq![])
    } else {
        fields_from(s.drop_first(), c, cur.push(s[0]))
    }
}

pub open spec fn fields(s: Seq<char>, c: char) -> Seq<Seq<char>> {
    fields_from(s, c, seq![])
}

pub proof fn lemma_fields_nonempty(s: Seq<char>, c: char, cur: Seq<char>)
    ensures
        fields_from(s, c, cur).len() >= 1,
    decreases s.len(),
{
    if s.len() > 0 {
        if s[0] == c {
            lemma_fields_nonempty(s.drop_first(), c, seq![]);
        } else {
            lemma_fields_nonempty(s.drop_first(), c, cur.push(s[0]));
        }
    }
}

/// The first three `'/'`-separated fields of the path with its outer
/// slashes removed: partition, child and grandchild.
pub open spec fn field_at(f: Seq<Seq<char>>, i: int) -> Option<Seq<char>> {
    if 0 <= i < f.len() {
        Some(f[i])
    } else {
        None
    }
}

pub open spec fn is_partition_name(p: Seq<char>) -> bool {
    p == "system"@ || managed_partitions().contains(p)
}

/// Package APK directories, runtime resource overlay directories and the
/// package manager's configuration directories of a partition.
pub open spec fn spec_is_package_manager_scan_path(path: Seq<char>) -> bool {
    let f = fields(strip_slashes(path), '/');
    is_partition_name(f[0]) && match field_at(f, 1) {
        Some(child) => {
            ||| child == "app"@ || child == "priv-app"@ || child == "overlay"@
            ||| child == "etc"@ && match field_at(f, 2) {
                Some(g) => package_manager_etc_dirs().contains(g),
                None => false,
            }
        },
        None => false,
    }
}

/// The `etc` directory at the root of a partition.
pub open spec fn spec_is_partition_etc_root(path: Seq<char>) -> bool {
    let f = fields(strip_slashes(path), '/');
    is_partition_name(f[0]) && f.len() == 2 && f[1] == "etc"@
}

/// The path is one of the library partitions or lies below one.
pub open spec fn spec_has_ignored_umount_prefix(path: Seq<char>) -> bool {
    exists|i: int|
        0 <= i < ignore_umount_partitions().len() && rule_covers(
            #[trigger] ignore_umount_partitions()[i],
            path,
        )
}

pub open spec fn spec_should_skip_ksu_umount(path: Seq<char>) -> bool {
    spec_has_ignored_umount_prefix(path) || spec_is_package_manager_scan_path(path)
}

/// Splits `s` at every `c`, keeping empty fields.
pub fn split_fields(s: &[char], c: char) -> (r: Vec<Vec<char>>)
    ensures
        crate::text::views(r@) == fields(s@, c),
{
    let mut out: Vec<Vec<char>> = Vec::new();
    let mut cur: Vec<char> = Vec::new();
    let mut i: usize = 0;
    assert(s@.skip(0) =~= s@);
    assert(crate::text::views(out@) =~= Seq::<Seq<char>>::empty());
    while i < s.len()
        invariant
            i <= s.len(),
            crate::text::views(out@) + fields_from(s@.skip(i as int), c, cur@) == fields(s@, c),
        decreases s.len() - i,
    {
        let ghost rest = s@.skip(i as int);
        assert(rest[0] == s@[i as int]);
        assert(rest.drop_first() =~= s@.skip(i + 1));
        let x = s[i];
        if x == c {
            let ghost old_cur = cur@;
            let ghost before = crate::text::views(out@);
            proof {
                crate::text::lemma_views_push(out@, cur);
            }
            out.push(cur);
            cur = Vec::new();
            assert(before + (seq![old_cur] + fields_from(s@.skip(i + 1), c, seq![]))
                =~= crate::text::views(out@) + fields_from(s@.skip(i + 1), c, cur@));
        } else {
            let ghost old_cur = cur@;
            cur.push(x);
            assert(fields_from(rest, c, old_cur) == fields_from(s@.skip(i + 1), c, cur@));
        }
        i = i + 1;
    }
    assert(s@.skip(i as int) =~= Seq::<char>::empty());
    proof {
        crate::text::lemma_views_push(out@, cur);
    }
    out.push(cur);
    out
}

/// `s` with its outer slashes removed (see `strip_slashes`).
pub fn strip_slashes_chars(s: &[char]) -> (r: Vec<char>)
    ensures
        r@ == strip_slashes(s@),
{
    let mut j: usize = s.len();
    assert(s@.take(j as int) =~= s@);
    while j > 0 && s[j - 1] == '/'
        invariant
            j <= s.len(),
            trailing_count(s@, '/') == (s.len() - j) + trailing_count(s@.take(j as int), '/'),
        decreases j,
    {
        let ghost pre = s@.take(j as int);
        assert(pre.last() == s@[j - 1]);
        assert(pre.drop_last() =~= s@.take(j - 1));
        j = j - 1;
    }
    let t = slice_chars(s, 0, j);
    assert(t@ =~= s@.take(s@.len() - trailing_count(s@, '/')));
    let mut i: usize = 0;
    assert(t@.skip(0) =~= t@);
    while i < t.len() && t[i] == '/'
        invariant
            i <= t.len(),
            leading_count(t@, '/') == i + leading_count(t@.skip(i as int), '/'),
        decreases t.len() - i,
    {
        let ghost rest = t@.skip(i as int);
        assert(rest[0] == t@[i as int]);
        assert(rest.drop_first() =~= t@.skip(i + 1));
        i = i + 1;
    }
    slice_chars(&t, i, t.len())
}

fn is_partition_chars(p: &[char]) -> (b: bool)
    ensures
        b == is_partition_name(p@),
{
    let sys = chars_of("system");
    if chars_eq(p, &sys) {
        return true;
    }
    let managed = managed_partition_list();
    contains_name(&managed, p)
}

fn lit_eq(p: &[char], lit: &'static str) -> (b: bool)
    ensures
        b == (p@ == lit@),
{
    let l = chars_of(lit);
    chars_eq(p, &l)
}

pub fn is_package_manager_scan_path(path: &str) -> (b: bool)
    ensures
        b == spec_is_package_manager_scan_path(path@),
{
    let s = chars_of(path);
    let t = strip_slashes_chars(&s);
    let f = split_fields(&t, '/');
    proof {
        lemma_fields_nonempty(t@, '/', seq![]);
    }
    assert(crate::text::views(f@)[0] == f@[0]@);
    if !is_partition_chars(&f[0]) {
        return false;
    }
    if f.len() < 2 {
        return false;
    }
    assert(crate::text::views(f@)[1] == f@[1]@);
    let child = &f[1];
    if lit_eq(child, "app") || lit_eq(child, "priv-app") || lit_eq(child, "overlay") {
        return true;
    }
    if !lit_eq(child, "etc") {
        return false;
    }
    if f.len() < 3 {
        return false;
    }
    assert(crate::text::views(f@)[2] == f@[2]@);
    let dirs = package_manager_etc_dir_list();
    contains_name(&dirs, &f[2])
}

pub fn is_partition_etc_root(path: &str) -> (b: bool)
    ensures
        b == spec_is_partition_etc_root(path@),
{
    let s = chars_of(path);
    let t = strip_slashes_chars(&s);
    let f = split_fields(&t, '/');
    proof {
        lemma_fields_nonempty(t@, '/', seq![]);
    }
    assert(crate::text::views(f@)[0] == f@[0]@);
    if !is_partition_chars(&f[0]) {
        return false;
    }
    if f.len() != 2 {
        return false;
    }
    assert(crate::text::views(f@)[1] == f@[1]@);
    lit_eq(&f[1], "etc")
}

pub fn has_ignored_umount_prefix(path: &str) -> (b: bool)
    ensures
        b == spec_has_ignored_umount_prefix(path@),
{
    let p = chars_of(path);
    let list = ignore_umount_partition_list();
    let ghost names = list@.map_values(|s: &str| s@);
    let mut i: usize = 0;
    while i < list.len()
        invariant
            i <= list@.len(),
            p@ == path@,
            names == ignore_umount_partitions(),
            names == list@.map_values(|s: &str| s@),
            forall|j: int| 0 <= j < i ==> !rule_covers(#[trigger] names[j], path@),
        decreases list@.len() - i,
    {
        let key = chars_of(list[i]);
        if covers_chars(&key, &p) {
            assert(rule_covers(names[i as int], path@));
            return true;
        }
        i = i + 1;
    }
    false
}

/// Whether unmounting `path` in app namespaces must be skipped.
pub fn should_skip_ksu_umount(path: &str) -> (b: bool)
    ensures
        b == spec_should_skip_ksu_umount(path@),
{
    has_ignored_umount_prefix(path) || is_package_manager_scan_path(path)
}

/// Whether a mount already present at `path` stays in place under a new
/// overlay.
pub fn should_keep_existing_mount_before_overlay(path: &str) -> (b: bool)
    ensures
        b == spec_is_package_manager_scan_path(path@),
{
    is_package_manager_scan_path(path)
}

/// Whether a path is present on disk (`Path::exists`).
#[verifier::external_body]
pub(crate) fn path_exists(path: &str) -> bool {
    std::path::Path::new(path).exists()
}

/// The path `dir/name` as text.
pub fn join_name(dir: &str, name: &str) -> (r: String)
    ensures
        r@ == join_path(dir@, name@),
{
    let mut d = chars_of(dir);
    let n = chars_of(name);
    let ghost d0 = d@;
    if d.len() > 0 && d[d.len() - 1] != '/' {
        d.push('/');
    }
    let mut k: usize = 0;
    let ghost mid = d@;
    while k < n.len()
        invariant
            k <= n@.len(),
            d@ == mid + n@.take(k as int),
        decreases n@.len() - k,
    {
        d.push(n[k]);
        assert(d@ =~= mid + n@.take(k + 1));
        k = k + 1;
    }
    assert(n@.take(k as int) =~= n@);
    crate::text::string_from_chars(&d)
}

/// `dir` and `name` joined by one separator (`Path::join` for a relative
/// `name`).
pub open spec fn join_path(dir: Seq<char>, name: Seq<char>) -> Seq<char> {
    if dir.len() > 0 && dir.last() != '/' {
        dir.push('/') + name
    } else {
        dir + name
    }
}

/// Whether unmounting the overlay at `path` must be skipped: either the
/// path itself is kept, or it is a partition's `etc` root and one of the
/// layers carries package manager configuration. `probe` reports, for
/// each layer in order, whether it holds one of those directories.
pub open spec fn spec_skip_overlay_umount(path: Seq<char>, probe: Seq<bool>) -> bool {
    spec_should_skip_ksu_umount(path) || (spec_is_partition_etc_root(path) && probe.contains(true))
}

/// Whether unmounting the overlay at `path` with the given lower layers must
/// be skipped. Which layers hold package manager configuration is read from
/// disk.
pub fn should_skip_overlay_ksu_umount(path: &str, lowerdirs: &Vec<String>) -> (b: bool)
    ensures
        spec_should_skip_ksu_umount(path@) ==> b,
        !spec_is_partition_etc_root(path@) ==> b == spec_should_skip_ksu_umount(path@),
        exists|found: Seq<bool>|
            found.len() == lowerdirs@.len() && b == #[trigger] spec_skip_overlay_umount(path@, found),
{
    let ghost none_found = Seq::new(lowerdirs@.len(), |i: int| false);
    if should_skip_ksu_umount(path) {
        assert(spec_skip_overlay_umount(path@, none_found));
        return true;
    }
    if !is_partition_etc_root(path) {
        assert(!spec_skip_overlay_umount(path@, none_found));
        return false;
    }
    let probe = probe_package_manager_etc(lowerdirs);
    skip_overlay_umount_decision(path, &probe)
}

/// For each layer, whether one of the package manager directories exists
/// below it.
fn probe_package_manager_etc(lowerdirs: &Vec<String>) -> (probe: Vec<bool>)
    ensures
        probe@.len() == lowerdirs@.len(),
{
    let dirs = package_manager_etc_dir_list();
    let mut probe: Vec<bool> = Vec::new();
    let mut i: usize = 0;
    while i < lowerdirs.len()
        invariant
            i <= lowerdirs@.len(),
            probe@.len() == i,
        decreases lowerdirs@.len() - i,
    {
        let mut found = false;
        let mut k: usize = 0;
        while k < dirs.len()
            invariant
                k <= dirs@.len(),
                i < lowerdirs@.len(),
            decreases dirs@.len() - k,
        {
            let candidate = join_name(lowerdirs[i].as_str(), dirs[k]);
            if path_exists(candidate.as_str()) {
                found = true;
            }
            k = k + 1;
        }
        probe.push(found);
        i = i + 1;
    }
    probe
}

/// The decision of `should_skip_overlay_ksu_umount` for given probe results.
pub fn skip_overlay_umount_decision(path: &str, probe: &Vec<bool>) -> (b: bool)
    ensures
        b == spec_skip_overlay_umount(path@, probe@),
{
    if should_skip_ksu_umount(path) {
        return true;
    }
    if !is_partition_etc_root(path) {
        return false;
    }
    let mut i: usize = 0;
    while i < probe.len()
        invariant
            i <= probe@.len(),
            spec_is_partition_etc_root(path@),
            !spec_should_skip_ksu_umount(path@),
            forall|j: int| 0 <= j < i ==> !probe@[j],
        decreases probe@.len() - i,
    {
        if probe[i] {
            assert(probe@[i as int] == true);
            return true;
        }
        i = i + 1;
    }
    assert(!probe@.contains(true));
    false
}

} // verus!
