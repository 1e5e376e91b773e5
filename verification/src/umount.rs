//! The mount points registered for unmounting in app namespaces.

use vstd::prelude::*;
use crate::order::{string_views, strictly_sorted, sorted_insert, keys_of, contains_str};
use crate::path::{normalize_umount_path, spec_normalize_umount_path};
use crate::defs::{has_ignored_umount_prefix, spec_has_ignored_umount_prefix};

verus! {

/// Whether the mount at `path` stays visible in app namespaces: it is one
/// of the library directories of `system` or `vendor`, or lies below one.
pub fn is_ignored_partition(path: &str) -> (b: bool)
    ensures
        b == spec_has_ignored_umount_prefix(path@),
{
    has_ignored_umount_prefix(path)
}

/// The mount points registered so far: each once, in registration order.
pub struct UmountRegistry {
    history: Vec<String>,
    pending: Vec<String>,
}

impl UmountRegistry {
    /// The registered paths, in the order they were registered.
    pub closed spec fn registered(&self) -> Seq<Seq<char>> {
        string_views(self.pending@)
    }

    pub closed spec fn wf(&self) -> bool {
        &&& strictly_sorted(keys_of(self.history@))
        &&& keys_of(self.history@).to_set() == string_views(self.pending@).to_set()
        &&& string_views(self.pending@).no_duplicates()
    }

    pub fn new() -> (r: Self)
        ensures
            r.wf(),
            r.registered().len() == 0,
    {
        let r = UmountRegistry { history: Vec::new(), pending: Vec::new() };
        assert(keys_of(r.history@).to_set() =~= string_views(r.pending@).to_set());
        r
    }

    /// The registered paths, in registration order.
    pub fn paths(&self) -> (v: Vec<String>)
        ensures
            string_views(v@) == self.registered(),
    {
        crate::order::copy_strings(&self.pending)
    }

    /// Registers the mount at `target` for unmounting when the root manager
    /// supports it (`ksu_present`): under its normalised form, unless that
    /// lies in an ignored partition or was registered before.
    pub fn send_umountable(&mut self, ksu_present: bool, target: &str)
        requires
            old(self).wf(),
        ensures
            final(self).wf(),
            final(self).registered() == spec_send(old(self).registered(), ksu_present, target@),
    {
        if !ksu_present {
            return;
        }
        let path = normalize_umount_path(target);
        if has_ignored_umount_prefix(path.as_str()) {
            return;
        }
        if contains_str(&self.pending, path.as_str()) {
            return;
        }
        let ghost before = string_views(self.pending@);
        assert(before.len() == self.pending@.len());
        let copy = path.clone();
        sorted_insert(&mut self.history, copy);
        self.pending.push(path);
        assert(string_views(self.pending@) =~= before.push(path@));
        proof {
            before.lemma_push_to_set_commute(path@);
            assert forall|i: int, j: int|
                0 <= i < j < string_views(self.pending@).len() implies string_views(
                self.pending@,
            )[i] != string_views(self.pending@)[j] by {
                if j == before.len() {
                    assert(before.contains(before[i]));
                }
            }
        }
    }
}

/// The registered paths after registering `target`.
pub open spec fn spec_send(registered: Seq<Seq<char>>, ksu_present: bool, target: Seq<char>) -> Seq<
    Seq<char>,
> {
    let p = spec_normalize_umount_path(target);
    if !ksu_present || spec_has_ignored_umount_prefix(p) || registered.contains(p) {
        registered
    } else {
        registered.push(p)
    }
}

/// Registering the same target twice is the same as registering it once.
pub proof fn lemma_send_idempotent(registered: Seq<Seq<char>>, ksu_present: bool, target: Seq<char>)
    ensures
        spec_send(spec_send(registered, ksu_present, target), ksu_present, target) == spec_send(
            registered,
            ksu_present,
            target,
        ),
{
    let p = spec_normalize_umount_path(target);
    if ksu_present && !spec_has_ignored_umount_prefix(p) && !registered.contains(p) {
        assert(registered.push(p)[registered.len() as int] == p);
    }
}

} // verus!
