//! Decisions about the prepared module trees on disk: where a module tree
//! is staged, which leftovers are removed, which directories are kept.

use vstd::prelude::*;
use crate::order::{string_views, contains_str, copy_strings};
use crate::text::{chars_of, string_from_chars, append_str};
use crate::defs::{join_name, join_path, REPLACE_DIR_FILE_NAME};
use crate::inventory::{ci_eq, eq_ignore_ascii_case};

verus! {

/// Where a module tree is staged before it replaces the previous one.
#[derive(Debug, Clone)]
pub struct PreparedDir {
    id: String,
    target_base: String,
    tmp_dst: String,
    final_dst: String,
}

impl PreparedDir {
    pub closed spec fn spec_id(&self) -> Seq<char> {
        self.id@
    }

    pub closed spec fn spec_tmp(&self) -> Seq<char> {
        self.tmp_dst@
    }

    pub closed spec fn spec_final(&self) -> Seq<char> {
        self.final_dst@
    }

    pub closed spec fn spec_base(&self) -> Seq<char> {
        self.target_base@
    }

    /// The staging of module `id` under `target_base`: built in
    /// `.tmp_<id>`, then moved to `<id>`.
    pub fn new(target_base: &str, id: &str) -> (d: Self)
        ensures
            d.spec_id() == id@,
            d.spec_base() == target_base@,
            d.spec_tmp() == join_path(target_base@, ".tmp_"@ + id@),
            d.spec_final() == join_path(target_base@, id@),
    {
        let mut v: Vec<char> = Vec::new();
        append_str(&mut v, ".tmp_");
        append_str(&mut v, id);
        let tmp_name = string_from_chars(&v);
        PreparedDir {
            id: id.to_owned(),
            target_base: target_base.to_owned(),
            tmp_dst: join_name(target_base, tmp_name.as_str()),
            final_dst: join_name(target_base, id),
        }
    }

    pub fn tmp_path(&self) -> (p: &str)
        ensures
            p@ == self.spec_tmp(),
    {
        self.tmp_dst.as_str()
    }

    pub fn final_path(&self) -> (p: &str)
        ensures
            p@ == self.spec_final(),
    {
        self.final_dst.as_str()
    }

    /// Where the previous tree is kept while the new one moves in:
    /// `.backup_<id>` beside it.
    pub fn backup_path(&self) -> (p: String)
        ensures
            p@ == join_path(self.spec_base(), ".backup_"@ + self.spec_id()),
    {
        let mut v: Vec<char> = Vec::new();
        append_str(&mut v, ".backup_");
        append_str(&mut v, self.id.as_str());
        let name = string_from_chars(&v);
        join_name(self.target_base.as_str(), name.as_str())
    }
}

/// An entry of the storage root is an orphan: not hidden, not the tree of
/// an active module, not preserved.
pub open spec fn is_orphan(name: Seq<char>, active: Seq<Seq<char>>, preserved: Seq<Seq<char>>) -> bool {
    &&& !(name.len() > 0 && name[0] == '.')
    &&& !active.contains(name)
    &&& !preserved.contains(name)
}

/// The entries of the storage root to remove, in listing order.
pub fn prune_orphaned_children(entries: &Vec<String>, active: &Vec<String>, preserved: &Vec<String>) -> (r:
    Vec<String>)
    ensures
        string_views(r@) == string_views(entries@).filter(
            |n: Seq<char>| is_orphan(n, string_views(active@), string_views(preserved@)),
        ),
{
    let ghost src = string_views(entries@);
    let ghost keep = |n: Seq<char>| is_orphan(n, string_views(active@), string_views(preserved@));
    let mut out: Vec<String> = Vec::new();
    let mut i: usize = 0;
    assert(src.take(0) =~= Seq::<Seq<char>>::empty());
    assert(Seq::<Seq<char>>::empty().filter(keep) =~= Seq::<Seq<char>>::empty()) by {
        reveal(Seq::filter);
    }
    while i < entries.len()
        invariant
            i <= entries@.len(),
            src == string_views(entries@),
            keep == (|n: Seq<char>| is_orphan(n, string_views(active@), string_views(preserved@))),
            string_views(out@) == src.take(i as int).filter(keep),
        decreases entries@.len() - i,
    {
        let name = &entries[i];
        let c = chars_of(name.as_str());
        let hidden = c.len() > 0 && c[0] == '.';
        let orphan = !hidden && !contains_str(active, name.as_str()) && !contains_str(
            preserved,
            name.as_str(),
        );
        assert(src[i as int] == name@);
        assert(orphan == keep(src[i as int]));
        proof {
            src.take(i as int).lemma_filter_push(src[i as int], keep);
            assert(src.take(i + 1) =~= src.take(i as int).push(src[i as int]));
        }
        if orphan {
            let ghost before = out@;
            assert(string_views(before).len() == before.len());
            out.push(name.clone());
            assert(string_views(out@) =~= string_views(before).push(name@));
        }
        i = i + 1;
    }
    assert(src.take(i as int) =~= src);
    out
}

/// What finishing a copied tree does: the directories it tries to remove
/// (in the given order, which lists contents before their directory;
/// removal only succeeds on empty ones) and those it marks opaque.
#[derive(Debug, Clone)]
pub struct FinalizePlan {
    pub prune: Vec<String>,
    pub opaque: Vec<String>,
}

/// The directories of a copied tree to try to remove, all but the opaque
/// ones, and the opaque ones to mark.
pub fn finalize_copied_tree(dirs: &Vec<String>, opaque_dirs: &Vec<String>) -> (p: FinalizePlan)
    ensures
        string_views(p.prune@) == string_views(dirs@).filter(
            |d: Seq<char>| !string_views(opaque_dirs@).contains(d),
        ),
        string_views(p.opaque@) == string_views(opaque_dirs@),
{
    let ghost src = string_views(dirs@);
    let ghost keep = |d: Seq<char>| !string_views(opaque_dirs@).contains(d);
    let mut out: Vec<String> = Vec::new();
    let mut i: usize = 0;
    assert(src.take(0) =~= Seq::<Seq<char>>::empty());
    assert(Seq::<Seq<char>>::empty().filter(keep) =~= Seq::<Seq<char>>::empty()) by {
        reveal(Seq::filter);
    }
    while i < dirs.len()
        invariant
            i <= dirs@.len(),
            src == string_views(dirs@),
            keep == (|d: Seq<char>| !string_views(opaque_dirs@).contains(d)),
            string_views(out@) == src.take(i as int).filter(keep),
        decreases dirs@.len() - i,
    {
        let d = &dirs[i];
        let preserved = contains_str(opaque_dirs, d.as_str());
        assert(src[i as int] == d@);
        proof {
            src.take(i as int).lemma_filter_push(src[i as int], keep);
            assert(src.take(i + 1) =~= src.take(i as int).push(src[i as int]));
        }
        if !preserved {
            let ghost before = out@;
            assert(string_views(before).len() == before.len());
            out.push(d.clone());
            assert(string_views(out@) =~= string_views(before).push(d@));
        }
        i = i + 1;
    }
    assert(src.take(i as int) =~= src);
    FinalizePlan { prune: out, opaque: copy_strings(opaque_dirs) }
}

/// The directories to try to remove when pruning empty directories: all.
pub fn prune_empty_dirs(dirs: &Vec<String>) -> (r: Vec<String>)
    ensures
        string_views(r@) == string_views(dirs@),
{
    copy_strings(dirs)
}

/// What copying a module tree for Kasumi does and finds: the entries it
/// copies (by path relative to the tree's root, in the order met), whether
/// the tree holds content for a managed partition, and the directories to
/// mark opaque.
#[derive(Debug, Clone)]
pub struct SyncDirStats {
    pub has_mount_content: bool,
    pub opaque_dirs: Vec<String>,
    pub copied: Vec<String>,
}

/// An entry met while copying a tree: the directory it is in (relative to
/// the tree's root, empty for the root), its name, and whether it is a
/// directory.
#[derive(Debug, Clone)]
pub struct SyncEntry {
    pub parent: String,
    pub name: String,
    pub is_dir: bool,
}

/// The first component of a relative path.
pub open spec fn first_component(relative: Seq<char>) -> Seq<char> {
    relative.take(crate::validation::first_index(relative, '/') as int)
}

/// A relative path whose first component is a managed partition.
pub open spec fn spec_is_managed_partition_path(relative: Seq<char>, managed: Seq<Seq<char>>) -> bool {
    relative.len() > 0 && managed.contains(first_component(relative))
}

pub fn is_managed_partition_path(relative: &str, managed: &Vec<String>) -> (b: bool)
    ensures
        b == spec_is_managed_partition_path(relative@, string_views(managed@)),
{
    let c = chars_of(relative);
    if c.len() == 0 {
        return false;
    }
    let k = crate::validation::find_char(&c, '/');
    proof {
        crate::validation::lemma_first_index(c@, '/');
    }
    let first = crate::text::slice_chars(&c, 0, k);
    assert(first@ =~= first_component(relative@));
    let s = string_from_chars(&first);
    contains_str(managed, s.as_str())
}

/// An entry is the replace marker (`.replace` in any letter case).
pub open spec fn is_replace_marker(e: SyncEntry) -> bool {
    ci_eq(e.name@, REPLACE_DIR_FILE_NAME@)
}

/// An entry shows mount content: a replace marker in a managed partition,
/// or anything but a directory inside one.
pub open spec fn shows_content(e: SyncEntry, managed: Seq<Seq<char>>) -> bool {
    if is_replace_marker(e) {
        spec_is_managed_partition_path(e.parent@, managed)
    } else {
        !e.is_dir && spec_is_managed_partition_path(join_path(e.parent@, e.name@), managed)
    }
}

/// The path of an entry relative to the tree's root.
pub open spec fn relative_path_of(e: SyncEntry) -> Seq<char> {
    if e.parent@.len() == 0 {
        e.name@
    } else {
        join_path(e.parent@, e.name@)
    }
}

/// The opaque directory a replace marker makes, under the copy at `dst`.
pub open spec fn opaque_dir_of(dst: Seq<char>, e: SyncEntry) -> Seq<char> {
    if e.parent@.len() == 0 {
        dst
    } else {
        join_path(dst, e.parent@)
    }
}

/// What copying a tree to `dst` reports, given the entries met in order.
pub fn sync_dir(dst: &str, managed: &Vec<String>, entries: &Vec<SyncEntry>) -> (s: SyncDirStats)
    ensures
        s.has_mount_content == exists|i: int|
            0 <= i < entries@.len() && shows_content(#[trigger] entries@[i], string_views(managed@)),
        string_views(s.opaque_dirs@) == entries@.filter(|e: SyncEntry| is_replace_marker(e)).map_values(
            |e: SyncEntry| opaque_dir_of(dst@, e),
        ),
        string_views(s.copied@) == entries@.filter(|e: SyncEntry| !is_replace_marker(e)).map_values(
            |e: SyncEntry| relative_path_of(e),
        ),
{
    let ghost keep = |e: SyncEntry| is_replace_marker(e);
    let ghost f = |e: SyncEntry| opaque_dir_of(dst@, e);
    let ghost copy = |e: SyncEntry| !is_replace_marker(e);
    let ghost g = |e: SyncEntry| relative_path_of(e);
    let mut stats = SyncDirStats { has_mount_content: false, opaque_dirs: Vec::new(), copied: Vec::new() };
    let mut i: usize = 0;
    assert(entries@.take(0) =~= Seq::<SyncEntry>::empty());
    assert(Seq::<SyncEntry>::empty().filter(keep) =~= Seq::<SyncEntry>::empty()) by {
        reveal(Seq::filter);
    }
    assert(Seq::<SyncEntry>::empty().filter(copy) =~= Seq::<SyncEntry>::empty()) by {
        reveal(Seq::filter);
    }
    while i < entries.len()
        invariant
            i <= entries@.len(),
            keep == (|e: SyncEntry| is_replace_marker(e)),
            f == (|e: SyncEntry| opaque_dir_of(dst@, e)),
            copy == (|e: SyncEntry| !is_replace_marker(e)),
            g == (|e: SyncEntry| relative_path_of(e)),
            string_views(stats.copied@) == entries@.take(i as int).filter(copy).map_values(g),
            stats.has_mount_content == exists|j: int|
                0 <= j < i && shows_content(#[trigger] entries@[j], string_views(managed@)),
            string_views(stats.opaque_dirs@) == entries@.take(i as int).filter(keep).map_values(f),
        decreases entries@.len() - i,
    {
        let e = &entries[i];
        let marker = eq_ignore_ascii_case(e.name.as_str(), REPLACE_DIR_FILE_NAME);
        proof {
            entries@.take(i as int).lemma_filter_push(entries@[i as int], keep);
            entries@.take(i as int).lemma_filter_push(entries@[i as int], copy);
            assert(entries@.take(i + 1) =~= entries@.take(i as int).push(entries@[i as int]));
        }
        if !marker {
            let pc = chars_of(e.parent.as_str());
            let rel = if pc.len() == 0 {
                e.name.clone()
            } else {
                join_name(e.parent.as_str(), e.name.as_str())
            };
            assert(rel@ == g(entries@[i as int]));
            let ghost before = stats.copied@;
            assert(string_views(before).len() == before.len());
            stats.copied.push(rel);
            assert(string_views(stats.copied@) =~= string_views(before).push(g(entries@[i as int])));
            assert(entries@.take(i as int).filter(copy).push(entries@[i as int]).map_values(g)
                =~= entries@.take(i as int).filter(copy).map_values(g).push(g(entries@[i as int])));
        }
        let shows = if marker {
            is_managed_partition_path(e.parent.as_str(), managed)
        } else {
            let joined = join_name(e.parent.as_str(), e.name.as_str());
            !e.is_dir && is_managed_partition_path(joined.as_str(), managed)
        };
        assert(shows == shows_content(entries@[i as int], string_views(managed@)));
        if shows {
            stats.has_mount_content = true;
        }
        if marker {
            let parent_chars = chars_of(e.parent.as_str());
            let dir = if parent_chars.len() == 0 {
                dst.to_owned()
            } else {
                join_name(dst, e.parent.as_str())
            };
            assert(dir@ == f(entries@[i as int]));
            let ghost before = stats.opaque_dirs@;
            assert(string_views(before).len() == before.len());
            stats.opaque_dirs.push(dir);
            assert(string_views(stats.opaque_dirs@) =~= string_views(before).push(f(entries@[i as int])));
            assert(entries@.take(i as int).filter(keep).push(entries@[i as int]).map_values(f)
                =~= entries@.take(i as int).filter(keep).map_values(f).push(f(entries@[i as int])));
        }
        i = i + 1;
    }
    assert(entries@.take(i as int) =~= entries@);
    stats
}

} // verus!
