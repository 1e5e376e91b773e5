//! Whether a path is a mount point of this process's mount namespace.

use vstd::prelude::*;

use crate::order::{string_views, strictly_sorted};

verus! {

#[verifier::external_type_specification]
#[verifier::external_body]
pub struct ExProcess(procfs::process::Process);

/// `procfs::process::Process::myself`: the process's own `/proc` entry,
/// or `None` when it cannot be opened.
#[verifier::external_body]
fn process_myself() -> Option<procfs::process::Process> {
    match procfs::process::Process::myself() {
        Ok(p) => Some(p),
        Err(_) => None,
    }
}

#[verifier::external_type_specification]
#[verifier::external_body]
pub struct ExMountInfo(procfs::process::MountInfo);

/// `procfs::process::Process::mountinfo`: the entries of the process's
/// `mountinfo`, in its order, or `None` when it cannot be read. What it
/// lists depends on the system.
#[verifier::external_body]
fn mount_entries_of(p: &procfs::process::Process) -> Option<Vec<procfs::process::MountInfo>> {
    match p.mountinfo() {
        Ok(infos) => Some(infos.0),
        Err(_) => None,
    }
}

/// `Path::to_string_lossy` on the `mount_point` field of a
/// `procfs::process::MountInfo`: the path as UTF-8 text, with each invalid
/// sequence replaced. What the field holds depends on the system.
#[verifier::external_body]
fn mount_point_lossy(m: &procfs::process::MountInfo) -> String {
    m.mount_point.to_string_lossy().into_owned()
}

/// `Path::to_str` on the `mount_point` field of a
/// `procfs::process::MountInfo`, reduced to whether it succeeds: whether
/// the path is valid UTF-8.
#[verifier::external_body]
fn mount_point_is_utf8(m: &procfs::process::MountInfo) -> bool {
    m.mount_point.to_str().is_some()
}

/// The mount points of the entries of a mount table, in its order, each
/// with whether it is valid UTF-8.
fn mount_points_of(entries: &Vec<procfs::process::MountInfo>) -> (points: Vec<(String, bool)>)
    ensures
        points@.len() == entries@.len(),
{
    let mut points: Vec<(String, bool)> = Vec::new();
    let mut i: usize = 0;
    while i < entries.len()
        invariant
            i <= entries@.len(),
            points@.len() == i,
        decreases entries@.len() - i,
    {
        let text = mount_point_lossy(&entries[i]);
        let utf8 = mount_point_is_utf8(&entries[i]);
        points.push((text, utf8));
        i = i + 1;
    }
    points
}

/// The mount points of this process's mount table, each with whether it
/// is valid UTF-8; `None` where the table cannot be read.
fn mount_table() -> Option<Vec<(String, bool)>> {
    match process_myself() {
        Some(p) => match mount_entries_of(&p) {
            Some(entries) => Some(mount_points_of(&entries)),
            None => None,
        },
        None => None,
    }
}

/// The mount points strictly below `root` in this process's mount table,
/// each once, in increasing order (see `child_mount_points_in`); `None`
/// where the table cannot be read.
pub fn child_mount_points(root: &str) -> (r: Option<Vec<String>>)
    ensures
        r matches Some(v) ==> strictly_sorted(string_views(v@)) && forall|p: Seq<char>|
            #[trigger] string_views(v@).contains(p) ==> crate::overlay_mount::spec_is_child_mount(root@, p),
{
    match mount_table() {
        Some(points) => {
            let v = crate::overlay_mount::child_mount_points_in(root, &points);
            assert forall|p: Seq<char>| #[trigger] string_views(v@).contains(p) implies crate::overlay_mount::spec_is_child_mount(root@, p) by {}
            Some(v)
        },
        None => None,
    }
}

/// The text a path is looked up by: `"/"` itself, otherwise the path
/// without trailing slashes.
pub open spec fn mount_search(path: Seq<char>) -> Seq<char> {
    if path == seq!['/'] {
        path
    } else {
        strip_trailing_slashes(path)
    }
}

pub open spec fn strip_trailing_slashes(s: Seq<char>) -> Seq<char>
    decreases s.len(),
{
    if s.len() > 0 && s.last() == '/' {
        strip_trailing_slashes(s.drop_last())
    } else {
        s
    }
}

fn search_text(path: &str) -> (r: String)
    ensures
        r@ == mount_search(path@),
{
    let c = crate::text::chars_of(path);
    if c.len() == 1 && c[0] == '/' {
        assert(c@ =~= seq!['/']);
        return crate::text::string_from_chars(&c);
    }
    let mut n: usize = c.len();
    assert(c@.take(n as int) =~= c@);
    while n > 0 && c[n - 1] == '/'
        invariant
            n <= c@.len(),
            strip_trailing_slashes(c@) == strip_trailing_slashes(c@.take(n as int)),
        decreases n,
    {
        assert(c@.take(n as int).drop_last() =~= c@.take(n - 1));
        n = n - 1;
    }
    let r = crate::text::slice_chars(&c, 0, n);
    assert(r@ =~= c@.take(n as int));
    crate::text::string_from_chars(&r)
}

/// Whether `path` is among the mount points `points`.
pub open spec fn spec_mounted_in(path: Seq<char>, points: Seq<Seq<char>>) -> bool {
    points.contains(mount_search(path))
}

pub fn is_mounted_in(path: &str, points: &Vec<String>) -> (b: bool)
    ensures
        b == spec_mounted_in(path@, string_views(points@)),
{
    let s = search_text(path);
    crate::order::contains_str(points, s.as_str())
}

/// Whether `path` is a mount point now (see `is_mounted_in`, applied to
/// the mount points of this process's mount table); `false` where the
/// mount table cannot be read. The table depends on the system, so no
/// clause states the result.
pub fn is_mounted(path: &str) -> (b: bool) {
    match mount_table() {
        Some(points) => {
            let mut texts: Vec<String> = Vec::new();
            let mut i: usize = 0;
            while i < points.len()
                invariant
                    i <= points@.len(),
                decreases points@.len() - i,
            {
                texts.push(points[i].0.clone());
                i = i + 1;
            }
            is_mounted_in(path, &texts)
        },
        None => false,
    }
}

} // verus!
