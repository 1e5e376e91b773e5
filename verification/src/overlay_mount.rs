//! How an overlay is mounted over a target: the mount options, the
//! staging overlays that keep the number of layers within the kernel's
//! limit, and what becomes of the mounts found below the target.

use vstd::prelude::*;

use crate::defs::{ignore_umount_partition_list, ignore_umount_partitions, join_name, join_path};
use crate::order::{copy_strings, sorted_unique, strictly_sorted, string_views};
use crate::path::{path_parts, path_prefix, path_starts_with, split_parts};
use crate::text::{
    append_chars, append_str, chars_of, decimal, decimal_chars, join_strings, join_with,
    string_from_chars, trim, trim_chars,
};

verus! {

/// The most layers one overlay mount takes.
pub const MAX_LAYERS: usize = 64;

/// The mount source for an overlay over `target`: `"overlay"` for the
/// library directories that stay mounted in app namespaces, else the
/// configured one.
pub open spec fn spec_overlay_source(target: Seq<char>, configured: Seq<char>) -> Seq<char> {
    if ignore_umount_partitions().contains(trim(target)) {
        "overlay"@
    } else {
        configured
    }
}

pub fn overlay_source(target: &str, configured: &str) -> (s: String)
    ensures
        s@ == spec_overlay_source(target@, configured@),
{
    let t = trim_chars(chars_of(target).as_slice());
    let list = ignore_umount_partition_list();
    let mut i: usize = 0;
    while i < list.len()
        invariant
            i <= list@.len(),
            t@ == trim(target@),
            list@.map_values(|s: &str| s@) == ignore_umount_partitions(),
            forall|j: int| 0 <= j < i ==> ignore_umount_partitions()[j] != t@,
        decreases list@.len() - i,
    {
        let c = chars_of(list[i]);
        assert(list@.map_values(|s: &str| s@)[i as int] == list@[i as int]@);
        if crate::text::chars_eq(c.as_slice(), t.as_slice()) {
            assert(ignore_umount_partitions()[i as int] == t@);
            return "overlay".to_string();
        }
        i = i + 1;
    }
    configured.to_string()
}

/// `s` with every `,` escaped by a backslash, as overlay options need.
pub open spec fn escape_commas(s: Seq<char>) -> Seq<char>
    decreases s.len(),
{
    if s.len() == 0 {
        s
    } else if s.last() == ',' {
        escape_commas(s.drop_last()) + seq!['\\', ',']
    } else {
        escape_commas(s.drop_last()).push(s.last())
    }
}

fn escaped(s: &[char]) -> (r: Vec<char>)
    ensures
        r@ == escape_commas(s@),
{
    let mut r: Vec<char> = Vec::new();
    let mut i: usize = 0;
    assert(s@.take(0) =~= Seq::<char>::empty());
    while i < s.len()
        invariant
            i <= s@.len(),
            r@ == escape_commas(s@.take(i as int)),
        decreases s@.len() - i,
    {
        assert(s@.take(i + 1).drop_last() =~= s@.take(i as int));
        if s[i] == ',' {
            r.push('\\');
            r.push(',');
            assert(r@ =~= escape_commas(s@.take(i as int)) + seq!['\\', ',']);
        } else {
            r.push(s[i]);
        }
        i = i + 1;
    }
    assert(s@.take(i as int) =~= s@);
    r
}

/// The layers as the `lowerdir` option lists them, top first.
pub open spec fn spec_lowerdir_config(layers: Seq<Seq<char>>) -> Seq<char> {
    join_with(layers, ":"@)
}

pub fn lowerdir_config(layers: &Vec<String>) -> (s: String)
    ensures
        s@ == spec_lowerdir_config(string_views(layers@)),
{
    join_strings(layers, ":")
}

/// The options of an overlay mount: the layers, and the upper and work
/// directories when both are given.
pub open spec fn spec_mount_data(layers: Seq<Seq<char>>, upper: Option<Seq<char>>, work: Option<Seq<char>>) -> Seq<char> {
    let base = "lowerdir="@ + escape_commas(spec_lowerdir_config(layers));
    match (upper, work) {
        (Some(u), Some(w)) => base + ",upperdir="@ + escape_commas(u) + ",workdir="@ + escape_commas(w),
        _ => base,
    }
}

pub fn overlay_mount_data(layers: &Vec<String>, upper: &Option<String>, work: &Option<String>) -> (s: String)
    ensures
        s@ == spec_mount_data(
            string_views(layers@),
            crate::validation::opt_view(*upper),
            crate::validation::opt_view(*work),
        ),
{
    let config = lowerdir_config(layers);
    let mut v: Vec<char> = Vec::new();
    append_str(&mut v, "lowerdir=");
    let e = escaped(chars_of(config.as_str()).as_slice());
    append_chars(&mut v, e.as_slice());
    match (upper, work) {
        (Some(u), Some(w)) => {
            append_str(&mut v, ",upperdir=");
            let eu = escaped(chars_of(u.as_str()).as_slice());
            append_chars(&mut v, eu.as_slice());
            append_str(&mut v, ",workdir=");
            let ew = escaped(chars_of(w.as_str()).as_slice());
            append_chars(&mut v, ew.as_slice());
        },
        _ => {},
    }
    string_from_chars(&v)
}


/// The layers of an overlay being mounted, top first, and the staging
/// overlays made so far. Where there are more layers than one mount takes,
/// the bottom `MAX_LAYERS - 1` of them are first mounted as a staging
/// overlay, which then stands for them as a single layer.
pub struct LayerStack {
    layers: Vec<String>,
    staging: Vec<String>,
}

impl LayerStack {
    pub closed spec fn layers(&self) -> Seq<Seq<char>> {
        string_views(self.layers@)
    }

    /// The staging overlays made, in the order they were mounted.
    pub closed spec fn staging(&self) -> Seq<Seq<char>> {
        string_views(self.staging@)
    }

    /// The layers exceed what one mount takes.
    pub open spec fn needs_staging(&self) -> bool {
        self.layers().len() > MAX_LAYERS
    }

    /// How many layers stay above the next staging chunk.
    pub open spec fn split(&self) -> int {
        self.layers().len() - (MAX_LAYERS - 1)
    }

    /// The stack for module layers `lower` (top first) over the lowest
    /// layer `lowest`.
    pub fn new(lower: &Vec<String>, lowest: &str) -> (s: Self)
        ensures
            s.layers() == string_views(lower@).push(lowest@),
            s.staging().len() == 0,
    {
        let mut layers = copy_strings(lower);
        let ghost before = string_views(layers@);
        layers.push(lowest.to_string());
        assert(string_views(layers@) =~= before.push(lowest@));
        LayerStack { layers, staging: Vec::new() }
    }

    pub fn needs_staging_now(&self) -> (b: bool)
        ensures
            b == self.needs_staging(),
    {
        self.layers.len() > MAX_LAYERS
    }

    /// The bottom layers that the next staging overlay merges, and how many
    /// layers stay above them.
    pub fn next_chunk(&self) -> (r: (Vec<String>, usize))
        requires
            self.needs_staging(),
        ensures
            string_views(r.0@) == self.layers().skip(self.split()),
            r.1 == self.split(),
    {
        let split = self.layers.len() - (MAX_LAYERS - 1);
        let mut chunk: Vec<String> = Vec::new();
        let mut i: usize = split;
        while i < self.layers.len()
            invariant
                split <= i <= self.layers@.len(),
                split == self.layers@.len() - (MAX_LAYERS - 1),
                string_views(chunk@) == self.layers().subrange(split as int, i as int),
            decreases self.layers@.len() - i,
        {
            let ghost before = string_views(chunk@);
            let c = self.layers[i].clone();
            assert(c@ == self.layers()[i as int]);
            chunk.push(c);
            assert(string_views(chunk@) =~= before.push(c@));
            assert(self.layers().subrange(split as int, i + 1) =~= self.layers().subrange(
                split as int,
                i as int,
            ).push(self.layers()[i as int]));
            i = i + 1;
        }
        assert(self.layers().subrange(split as int, i as int) =~= self.layers().skip(split as int));
        (chunk, split)
    }

    /// The bottom chunk was mounted as a staging overlay at `dir`, which
    /// takes its place as the bottom layer; the stack shrinks by
    /// `MAX_LAYERS - 2` layers.
    pub fn staged(&mut self, dir: String)
        requires
            old(self).needs_staging(),
        ensures
            final(self).layers() == old(self).layers().take(old(self).split()).push(dir@),
            final(self).staging() == old(self).staging().push(dir@),
            final(self).layers().len() == old(self).layers().len() - (MAX_LAYERS - 2),
    {
        let split = self.layers.len() - (MAX_LAYERS - 1);
        let ghost before = self.layers();
        self.layers.truncate(split);
        assert(self.layers() =~= before.take(split as int));
        let ghost kept = self.layers();
        self.layers.push(dir.clone());
        assert(self.layers() =~= kept.push(dir@));
        let ghost s0 = self.staging();
        self.staging.push(dir);
        assert(self.staging() =~= s0.push(dir@));
    }

    /// The layers as they stand.
    pub fn layers_now(&self) -> (v: Vec<String>)
        ensures
            string_views(v@) == self.layers(),
    {
        copy_strings(&self.layers)
    }

    /// The staging overlays to detach and remove once the overlay is
    /// mounted: the last one made first.
    pub fn cleanup_order(&self) -> (v: Vec<String>)
        ensures
            string_views(v@) == self.staging().reverse(),
    {
        let mut v: Vec<String> = Vec::new();
        let mut i: usize = self.staging.len();
        while i > 0
            invariant
                i <= self.staging@.len(),
                string_views(v@) == self.staging().skip(i as int).reverse(),
            decreases i,
        {
            i = i - 1;
            let ghost before = string_views(v@);
            let c = self.staging[i].clone();
            assert(c@ == self.staging()[i as int]);
            v.push(c);
            assert(string_views(v@) =~= before.push(c@));
            assert(self.staging().skip(i as int).reverse() =~= self.staging().skip(i + 1).reverse().push(
                self.staging()[i as int],
            ));
        }
        assert(self.staging().skip(0) =~= self.staging());
        v
    }
}

/// Where a staging overlay is mounted: `staging_<timestamp>_<remaining>`
/// under the run directory, with the time in nanoseconds and the number of
/// layers that stay above its chunk.
pub open spec fn spec_staging_dir(timestamp_nanos: nat, remaining: nat) -> Seq<char> {
    join_path(crate::defs::RUN_DIR@, "staging_"@ + decimal(timestamp_nanos) + "_"@ + decimal(remaining))
}

pub fn staging_dir(timestamp_nanos: usize, remaining: usize) -> (p: String)
    ensures
        p@ == spec_staging_dir(timestamp_nanos as nat, remaining as nat),
{
    let mut v: Vec<char> = Vec::new();
    append_str(&mut v, "staging_");
    let t = decimal_chars(timestamp_nanos);
    append_chars(&mut v, t.as_slice());
    append_str(&mut v, "_");
    let r = decimal_chars(remaining);
    append_chars(&mut v, r.as_slice());
    let name = string_from_chars(&v);
    join_name(crate::defs::RUN_DIR, name.as_str())
}


/// Whether `p` is a mount point strictly below `root`, the paths compared
/// component by component.
pub open spec fn spec_is_child_mount(root: Seq<char>, p: Seq<char>) -> bool {
    path_starts_with(p, root) && path_parts(p).len() != path_parts(root).len()
}

/// The mount points below `root`, each once and in increasing order, among
/// the entries of a mount table given as their text and whether that text
/// is valid UTF-8 (those that are not are left out).
pub fn child_mount_points_in(root: &str, points: &Vec<(String, bool)>) -> (r: Vec<String>)
    ensures
        strictly_sorted(string_views(r@)),
        forall|p: Seq<char>|
            string_views(r@).contains(p) <==> exists|i: int|
                0 <= i < points@.len() && (#[trigger] points@[i]).1 && points@[i].0@ == p
                    && spec_is_child_mount(root@, p),
{
    let rc = chars_of(root);
    let root_parts = split_parts(rc.as_slice());
    let mut found: Vec<String> = Vec::new();
    let mut i: usize = 0;
    while i < points.len()
        invariant
            i <= points@.len(),
            crate::text::views(root_parts@) == path_parts(root@),
            forall|p: Seq<char>|
                string_views(found@).contains(p) <==> exists|j: int|
                    0 <= j < i && (#[trigger] points@[j]).1 && points@[j].0@ == p
                        && spec_is_child_mount(root@, p),
        decreases points@.len() - i,
    {
        let text = &points[i].0;
        let utf8 = points[i].1;
        let ghost before = found@;
        let mut is_child = false;
        if utf8 && path_prefix(text.as_str(), root) {
            let pc = chars_of(text.as_str());
            let pp = split_parts(pc.as_slice());
            assert(crate::text::views(pp@).len() == pp@.len());
            assert(crate::text::views(root_parts@).len() == root_parts@.len());
            is_child = pp.len() != root_parts.len();
        }
        assert(is_child == (points@[i as int].1 && spec_is_child_mount(root@, points@[i as int].0@)));
        if is_child {
            found.push(text.clone());
            assert(string_views(found@) =~= string_views(before).push(text@));
        }
        assert forall|p: Seq<char>|
            string_views(found@).contains(p) <==> exists|j: int|
                0 <= j < i + 1 && (#[trigger] points@[j]).1 && points@[j].0@ == p
                    && spec_is_child_mount(root@, p) by {
            let bv = string_views(before);
            let fv = string_views(found@);
            if fv.contains(p) {
                let m = choose|m: int| 0 <= m < fv.len() && fv[m] == p;
                if m < bv.len() {
                    assert(bv[m] == p);
                    assert(bv.contains(p));
                } else {
                    assert(p == points@[i as int].0@);
                    assert(points@[i as int].1 && spec_is_child_mount(root@, p));
                }
            }
            if exists|j: int|
                0 <= j < i + 1 && (#[trigger] points@[j]).1 && points@[j].0@ == p
                    && spec_is_child_mount(root@, p) {
                let j = choose|j: int|
                    0 <= j < i + 1 && (#[trigger] points@[j]).1 && points@[j].0@ == p
                        && spec_is_child_mount(root@, p);
                if j < i {
                    assert(bv.contains(p));
                    let m = choose|m: int| 0 <= m < bv.len() && bv[m] == p;
                    assert(fv[m] == p);
                } else {
                    assert(is_child);
                    assert(fv[bv.len() as int] == p);
                }
            }
        }
        i = i + 1;
    }
    let r = sorted_unique(found);
    assert forall|p: Seq<char>| string_views(r@).contains(p) == string_views(found@).contains(p) by {
        assert(string_views(r@).to_set().contains(p) == string_views(r@).contains(p));
        assert(string_views(found@).to_set().contains(p) == string_views(found@).contains(p));
    }
    r
}

/// `t` occurs in `s` at `i`.
pub open spec fn occurs_at(s: Seq<char>, t: Seq<char>, i: int) -> bool {
    0 <= i && i + t.len() <= s.len() && s.subrange(i, i + t.len()) == t
}

/// `s` without the first occurrence of `t` (`str::replacen(t, "", 1)`).
pub open spec fn spec_remove_first(s: Seq<char>, t: Seq<char>) -> Seq<char> {
    if exists|i: int| occurs_at(s, t, i) {
        let i = choose|i: int| occurs_at(s, t, i) && forall|j: int| 0 <= j < i ==> !occurs_at(s, t, j);
        s.take(i) + s.skip(i + t.len())
    } else {
        s
    }
}

/// The path of a mount point below `root` relative to it: the mount point
/// without the first occurrence of `root` in its text.
pub fn relative_to_root(mount_point: &str, root: &str) -> (r: String)
    ensures
        r@ == spec_remove_first(mount_point@, root@),
{
    let s = chars_of(mount_point);
    let t = chars_of(root);
    if t.len() > s.len() {
        assert(!exists|i: int| occurs_at(s@, t@, i));
        return mount_point.to_string();
    }
    let last = s.len() - t.len();
    let mut i: usize = 0;
    loop
        invariant
            t@.len() <= s@.len() <= usize::MAX,
            last == s@.len() - t@.len(),
            i <= last,
            s@ == mount_point@,
            t@ == root@,
            forall|j: int| 0 <= j < i ==> !occurs_at(s@, t@, j),
        ensures
            forall|j: int| 0 <= j <= last ==> !occurs_at(s@, t@, j),
        decreases last - i,
    {
        let mut k: usize = 0;
        let mut same = true;
        while k < t.len()
            invariant
                k <= t@.len(),
                i + t@.len() <= s@.len() <= usize::MAX,
                same ==> forall|m: int| 0 <= m < k ==> s@[i + m] == t@[m],
                !same ==> exists|m: int| 0 <= m < t@.len() && s@[i + m] != t@[m],
            decreases t@.len() - k,
        {
            if same && s[i + k] != t[k] {
                same = false;
            }
            k = k + 1;
        }
        if same {
            assert(s@.subrange(i as int, i + t@.len()) =~= t@);
            assert(occurs_at(s@, t@, i as int));
            proof {
                let c = choose|c: int| occurs_at(s@, t@, c) && forall|j: int| 0 <= j < c ==> !occurs_at(s@, t@, j);
                assert(occurs_at(s@, t@, i as int) && forall|j: int| 0 <= j < i ==> !occurs_at(s@, t@, j));
                assert(c == i) by {
                    if c < i {
                    } else if c > i {
                        assert(!occurs_at(s@, t@, i as int));
                    }
                }
            }
            let mut v: Vec<char> = Vec::new();
            let mut m: usize = 0;
            while m < i
                invariant
                    m <= i,
                    i + t@.len() <= s@.len() <= usize::MAX,
                    v@ == s@.take(m as int),
                decreases i - m,
            {
                v.push(s[m]);
                assert(v@ =~= s@.take(m + 1));
                m = m + 1;
            }
            let mut m: usize = i + t.len();
            let ghost head = v@;
            while m < s.len()
                invariant
                    i + t@.len() <= m <= s@.len(),
                    head == s@.take(i as int),
                    v@ == head + s@.subrange(i + t@.len(), m as int),
                decreases s@.len() - m,
            {
                v.push(s[m]);
                assert(v@ =~= head + s@.subrange(i + t@.len(), m + 1));
                m = m + 1;
            }
            assert(s@.subrange(i + t@.len(), s@.len() as int) =~= s@.skip(i + t@.len()));
            return string_from_chars(&v);
        } else {
            proof {
                let m = choose|m: int| 0 <= m < t@.len() && s@[i + m] != t@[m];
                assert(s@.subrange(i as int, i + t@.len())[m] == s@[i + m]);
                assert(!occurs_at(s@, t@, i as int));
            }
        }
        if i == last {
            break;
        }
        i = i + 1;
    }
    assert(!exists|j: int| occurs_at(s@, t@, j)) by {
        if exists|j: int| occurs_at(s@, t@, j) {
            let j = choose|j: int| occurs_at(s@, t@, j);
            assert(j <= last);
        }
    }
    mount_point.to_string()
}

/// What a module layer holds at a child mount's place: whether something
/// is there, and whether it is a directory (links followed).
#[derive(Debug, Clone, Copy)]
pub struct LowerProbe {
    pub exists: bool,
    pub is_dir: bool,
}

/// What becomes of a mount found below an overlay's target.
#[derive(Debug, Clone)]
pub enum ChildMount {
    /// No module has anything there: the stock tree is bound back.
    Bind,
    /// Nothing is mounted there.
    Skip,
    /// An overlay of these module directories over the stock tree.
    Overlay(Vec<String>),
}

/// The place of a child mount in each module layer: the layer's path
/// followed by the child's relative path.
pub open spec fn spec_child_lowers(roots: Seq<Seq<char>>, relative: Seq<char>) -> Seq<Seq<char>> {
    roots.map_values(|r: Seq<char>| r + relative)
}

/// The first `n` places that are directories, in layer order.
pub open spec fn dir_lowers(lowers: Seq<Seq<char>>, probes: Seq<LowerProbe>, n: int) -> Seq<Seq<char>>
    decreases n,
{
    if n <= 0 {
        seq![]
    } else if probes[n - 1].is_dir {
        dir_lowers(lowers, probes, n - 1).push(lowers[n - 1])
    } else {
        dir_lowers(lowers, probes, n - 1)
    }
}

/// The decision for a child mount whose places in the module layers show
/// `probes`, with `stock_is_dir` telling whether the stock tree there is a
/// directory: bind the stock tree back when no layer has anything there;
/// otherwise mount nothing when the stock tree is not a directory, when a
/// layer has something there that is not a directory, or when none has a
/// directory; else overlay the layers' directories.
pub open spec fn spec_child_mount(
    lowers: Seq<Seq<char>>,
    probes: Seq<LowerProbe>,
    stock_is_dir: bool,
) -> Option<Seq<Seq<char>>> {
    let n = probes.len() as int;
    if !(exists|i: int| 0 <= i < n && (#[trigger] probes[i]).exists) {
        None
    } else if !stock_is_dir || (exists|i: int| 0 <= i < n && !(#[trigger] probes[i]).is_dir && probes[i].exists)
        || dir_lowers(lowers, probes, n).len() == 0 {
        Some(seq![])
    } else {
        Some(dir_lowers(lowers, probes, n))
    }
}

/// Whether `m` is the decision `d` of `spec_child_mount` (`None` binds,
/// an empty list skips).
pub open spec fn child_mount_is(m: ChildMount, d: Option<Seq<Seq<char>>>) -> bool {
    match d {
        None => m is Bind,
        Some(l) => if l.len() == 0 {
            m is Skip
        } else {
            m matches ChildMount::Overlay(v) && string_views(v@) == l
        },
    }
}

/// Decides what to mount at a child mount at `relative` below the target,
/// the module layers being `roots` and `probes` telling what each holds
/// there.
pub fn child_mount_action(
    roots: &Vec<String>,
    relative: &str,
    probes: &Vec<LowerProbe>,
    stock_is_dir: bool,
) -> (m: ChildMount)
    requires
        probes@.len() == roots@.len(),
    ensures
        child_mount_is(m, spec_child_mount(spec_child_lowers(string_views(roots@), relative@), probes@, stock_is_dir)),
{
    let ghost lowers = spec_child_lowers(string_views(roots@), relative@);
    let n = probes.len();
    let mut any = false;
    let mut i: usize = 0;
    while i < n
        invariant
            i <= n == probes@.len(),
            any == exists|j: int| 0 <= j < i && (#[trigger] probes@[j]).exists,
        decreases n - i,
    {
        if probes[i].exists {
            any = true;
        }
        i = i + 1;
    }
    if !any {
        return ChildMount::Bind;
    }
    if !stock_is_dir {
        return ChildMount::Skip;
    }
    let mut dirs: Vec<String> = Vec::new();
    let mut i: usize = 0;
    while i < n
        invariant
            i <= n == probes@.len() == roots@.len(),
            lowers == spec_child_lowers(string_views(roots@), relative@),
            string_views(dirs@) == dir_lowers(lowers, probes@, i as int),
            forall|j: int| 0 <= j < i ==> !(!(#[trigger] probes@[j]).is_dir && probes@[j].exists),
        decreases n - i,
    {
        if probes[i].is_dir {
            let mut v = chars_of(roots[i].as_str());
            append_str(&mut v, relative);
            let d = string_from_chars(&v);
            assert(d@ == lowers[i as int]);
            let ghost before = string_views(dirs@);
            dirs.push(d);
            assert(string_views(dirs@) =~= before.push(d@));
        } else if probes[i].exists {
            return ChildMount::Skip;
        }
        i = i + 1;
    }
    if dirs.len() == 0 {
        return ChildMount::Skip;
    }
    ChildMount::Overlay(dirs)
}


/// The upper and work directories an overlay of `partition` would use:
/// `upperdir` and `workdir` under the partition's directory in the
/// writable area.
pub open spec fn spec_rw_dirs(partition: Seq<char>) -> (Seq<char>, Seq<char>) {
    let base = join_path(crate::defs::SYSTEM_RW_DIR@, partition);
    (join_path(base, "upperdir"@), join_path(base, "workdir"@))
}

pub fn overlay_rw_dirs(partition: &str) -> (r: (String, String))
    ensures
        (r.0@, r.1@) == spec_rw_dirs(partition@),
{
    let base = join_name(crate::defs::SYSTEM_RW_DIR, partition);
    (join_name(base.as_str(), "upperdir"), join_name(base.as_str(), "workdir"))
}

/// How the overlay of an operation of the plan is mounted.
#[derive(Debug, Clone)]
pub struct OverlayBase {
    pub target: String,
    pub layers: Vec<String>,
    pub upper: Option<String>,
    pub work: Option<String>,
    pub source: String,
    pub register_umount: bool,
}

/// The overlay of `op`: its layers over its target, with the partition's
/// upper and work directories when both are present (`upper_present`,
/// `work_present`), mounted with the source `overlay_source` picks, and
/// registered for unmounting unless unmounting is disabled.
pub fn plan_overlay_base(
    op: &crate::plan::OverlayOperation,
    config: &crate::config::Config,
    upper_present: bool,
    work_present: bool,
) -> (b: OverlayBase)
    ensures
        b.target@ == op.target@,
        string_views(b.layers@) == string_views(op.lowerdirs@),
        upper_present && work_present ==> crate::validation::opt_view(b.upper) == Some(
            spec_rw_dirs(op.partition_name@).0,
        ) && crate::validation::opt_view(b.work) == Some(spec_rw_dirs(op.partition_name@).1),
        !(upper_present && work_present) ==> b.upper is None && b.work is None,
        b.source@ == spec_overlay_source(op.target@, config.mountsource@),
        b.register_umount == !config.disable_umount,
{
    let (upper, work) = overlay_rw_dirs(op.partition_name.as_str());
    let (u, w) = if upper_present && work_present {
        (Some(upper), Some(work))
    } else {
        (None, None)
    };
    OverlayBase {
        target: op.target.clone(),
        layers: copy_strings(&op.lowerdirs),
        upper: u,
        work: w,
        source: overlay_source(op.target.as_str(), config.mountsource.as_str()),
        register_umount: !config.disable_umount,
    }
}

} // verus!
