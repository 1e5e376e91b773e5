//! The partitions that modules may overlay on this device.

use vstd::prelude::*;
use crate::order::{string_views, strictly_sorted, sorted_unique};
use crate::defs::{managed_partitions, managed_partition_list};

verus! {

/// `system` first, then the other managed partitions.
pub open spec fn partition_candidates() -> Seq<Seq<char>> {
    seq!["system"@] + managed_partitions()
}

/// Whether `Path::symlink_metadata` succeeds for `path`: something exists
/// there, links not followed. What exists depends on the system.
#[verifier::external_body]
fn symlink_metadata_ok(path: &str) -> bool {
    std::path::Path::new(path).symlink_metadata().is_ok()
}

/// Whether something exists at `/name`, links not followed.
pub(crate) fn partition_root_exists(name: &str) -> bool {
    let path = crate::defs::join_name("/", name);
    symlink_metadata_ok(path.as_str())
}

/// The candidates for which `present` holds, sorted, each once.
pub open spec fn spec_present_partitions(present: Seq<bool>) -> Set<Seq<char>> {
    Set::new(
        |p: Seq<char>|
            exists|i: int|
                0 <= i < partition_candidates().len() && i < present.len() && present[i]
                    && #[trigger] partition_candidates()[i] == p,
    )
}

/// The partitions among the candidates that `present` marks, where
/// `present[i]` tells whether `partition_candidates()[i]` exists.
pub fn partitions_from_probes(present: &Vec<bool>) -> (names: Vec<String>)
    ensures
        strictly_sorted(string_views(names@)),
        string_views(names@).to_set() == spec_present_partitions(present@),
{
    let mut all: Vec<&'static str> = Vec::new();
    all.push("system");
    let others = managed_partition_list();
    let mut k: usize = 0;
    while k < others.len()
        invariant
            k <= others@.len(),
            others@.map_values(|s: &str| s@) == managed_partitions(),
            all@.len() == k + 1,
            forall|j: int| 0 <= j < k + 1 ==> (#[trigger] all@[j])@ == partition_candidates()[j],
        decreases others@.len() - k,
    {
        assert(others@.map_values(|s: &str| s@)[k as int] == others@[k as int]@);
        assert(partition_candidates()[k + 1] == managed_partitions()[k as int]);
        all.push(others[k]);
        k = k + 1;
    }
    assert(all@.map_values(|s: &str| s@) =~= partition_candidates()) by {
        assert(others@.map_values(|s: &str| s@).len() == others@.len());
    }
    let ghost cands = all@.map_values(|s: &str| s@);
    let mut found: Vec<String> = Vec::new();
    let mut i: usize = 0;
    while i < all.len()
        invariant
            i <= all@.len(),
            cands == all@.map_values(|s: &str| s@),
            cands == partition_candidates(),
            forall|p: Seq<char>|
                string_views(found@).contains(p) <==> exists|j: int|
                    0 <= j < i && j < present@.len() && present@[j] && #[trigger] cands[j] == p,
        decreases all@.len() - i,
    {
        let ghost before = found@;
        assert(string_views(before).len() == before.len());
        if i < present.len() && present[i] {
            found.push(all[i].to_owned());
            assert(cands[i as int] == all@[i as int]@);
        }
        assert forall|p: Seq<char>|
            string_views(found@).contains(p) <==> exists|j: int|
                0 <= j < i + 1 && j < present@.len() && present@[j] && #[trigger] cands[j] == p by {
            if string_views(found@).contains(p) {
                let m = choose|m: int| 0 <= m < string_views(found@).len() && string_views(found@)[m] == p;
                if m < before.len() {
                    assert(string_views(before)[m] == p);
                    assert(string_views(before).contains(p));
                } else {
                    assert(cands[i as int] == p);
                }
            }
            if exists|j: int|
                0 <= j < i + 1 && j < present@.len() && present@[j] && #[trigger] cands[j] == p {
                let j = choose|j: int|
                    0 <= j < i + 1 && j < present@.len() && present@[j] && #[trigger] cands[j] == p;
                if j < i {
                    assert(string_views(before).contains(p));
                    let m = choose|m: int| 0 <= m < string_views(before).len() && string_views(before)[m] == p;
                    assert(string_views(found@)[m] == p);
                } else {
                    assert(string_views(found@)[before.len() as int] == p);
                }
            }
        }
        i = i + 1;
    }
    let names = sorted_unique(found);
    assert(string_views(names@).to_set() =~= spec_present_partitions(present@)) by {
        assert forall|p: Seq<char>| string_views(names@).to_set().contains(p)
            == spec_present_partitions(present@).contains(p) by {
            assert(string_views(found@).to_set().contains(p) == string_views(found@).contains(p));
        }
    }
    names
}

/// The partitions that exist at the root of this device, sorted, each
/// once: those among the candidates for which something is present at
/// `/<name>`, which is read from disk.
pub fn managed_partition_names() -> (names: Vec<String>)
    ensures
        strictly_sorted(string_views(names@)),
        forall|p: Seq<char>| string_views(names@).contains(p) ==> partition_candidates().contains(p),
        exists|present: Seq<bool>|
            present.len() == partition_candidates().len() && string_views(names@).to_set()
                == #[trigger] spec_present_partitions(present),
{
    let mut present: Vec<bool> = Vec::new();
    let mut all: Vec<&'static str> = Vec::new();
    all.push("system");
    let others = managed_partition_list();
    let mut k: usize = 0;
    while k < others.len()
        invariant
            k <= others@.len(),
            all@.len() == k + 1,
        decreases others@.len() - k,
    {
        all.push(others[k]);
        k = k + 1;
    }
    assert(others@.map_values(|s: &str| s@).len() == others@.len());
    let mut i: usize = 0;
    while i < all.len()
        invariant
            i <= all@.len(),
            present@.len() == i,
        decreases all@.len() - i,
    {
        present.push(partition_root_exists(all[i]));
        i = i + 1;
    }
    let names = partitions_from_probes(&present);
    assert forall|p: Seq<char>| string_views(names@).contains(p) implies partition_candidates().contains(p) by {
        assert(string_views(names@).to_set().contains(p));
        let j = choose|j: int|
            0 <= j < partition_candidates().len() && j < present@.len() && present@[j]
                && #[trigger] partition_candidates()[j] == p;
    }
    assert(present@.len() == partition_candidates().len());
    names
}

/// The same partitions as a set.
pub fn managed_partition_set() -> (names: Vec<String>)
    ensures
        strictly_sorted(string_views(names@)),
        forall|p: Seq<char>| string_views(names@).contains(p) ==> partition_candidates().contains(p),
        exists|present: Seq<bool>|
            present.len() == partition_candidates().len() && string_views(names@).to_set()
                == #[trigger] spec_present_partitions(present),
{
    managed_partition_names()
}

} // verus!
