//! Storage backends for the prepared module trees.

use vstd::prelude::*;

verus! {

/// Where prepared module trees are kept while mounted.
#[derive(Debug, Clone, Copy, PartialEq, Eq, Structural)]
pub enum StorageMode {
    Tmpfs,
    Ext4,
}

impl StorageMode {
    pub open spec fn spec_as_str(self) -> Seq<char> {
        match self {
            StorageMode::Tmpfs => "tmpfs"@,
            StorageMode::Ext4 => "ext4"@,
        }
    }

    pub fn as_str(self) -> (s: &'static str)
        ensures
            s@ == self.spec_as_str(),
    {
        match self {
            StorageMode::Tmpfs => "tmpfs",
            StorageMode::Ext4 => "ext4",
        }
    }
}

/// Only the ext4 backend leaves an image file to remove.
pub fn should_cleanup_image(storage_mode: StorageMode) -> (b: bool)
    ensures
        b == (storage_mode == StorageMode::Ext4),
{
    storage_mode == StorageMode::Ext4
}

/// The image files to remove once mounting is done.
pub fn cleanup_artifacts(storage_mode: StorageMode) -> (paths: Vec<&'static str>)
    ensures
        storage_mode == StorageMode::Ext4 ==> paths@.len() == 1 && paths@[0]@
            == crate::defs::MODULES_IMG_FILE@,
        storage_mode != StorageMode::Ext4 ==> paths@.len() == 0,
{
    let mut paths: Vec<&'static str> = Vec::new();
    if should_cleanup_image(storage_mode) {
        paths.push(crate::defs::MODULES_IMG_FILE);
    }
    paths
}

/// A mounted storage area.
#[derive(Debug, Clone)]
pub struct StorageHandle {
    mount_point: String,
    mode: StorageMode,
}

impl StorageHandle {
    pub closed spec fn spec_mount_point(&self) -> Seq<char> {
        self.mount_point@
    }

    pub closed spec fn spec_mode(&self) -> StorageMode {
        self.mode
    }

    pub fn new(mount_point: &str, mode: StorageMode) -> (h: Self)
        ensures
            h.spec_mount_point() == mount_point@,
            h.spec_mode() == mode,
    {
        StorageHandle { mount_point: mount_point.to_owned(), mode }
    }

    pub fn mount_point(&self) -> (p: &str)
        ensures
            p@ == self.spec_mount_point(),
    {
        self.mount_point.as_str()
    }

    pub fn mode(&self) -> (m: StorageMode)
        ensures
            m == self.spec_mode(),
    {
        self.mode
    }
}

/// Bytes per block of `st_blocks`.
pub const STAT_BLOCK_SIZE_BYTES: u64 = 512;

/// The size of module trees being measured for an image: the bytes of the
/// blocks of each regular file, a file reached again through a hard link
/// counted once.
#[derive(Debug, Clone)]
pub struct SizeTally {
    pub total: u64,
    pub seen: Vec<(u64, u64)>,
}

impl SizeTally {
    pub fn new() -> (t: Self)
        ensures
            t.total == 0,
            t.seen@.len() == 0,
    {
        SizeTally { total: 0, seen: Vec::new() }
    }

    /// Counts a regular file by its device, inode and block count, unless
    /// that device and inode were counted before; says whether it counted.
    pub fn record_file(&mut self, dev: u64, ino: u64, blocks: u64) -> (counted: bool)
        requires
            old(self).total + blocks * STAT_BLOCK_SIZE_BYTES <= u64::MAX,
        ensures
            counted == !old(self).seen@.contains((dev, ino)),
            counted ==> final(self).total == old(self).total + blocks * STAT_BLOCK_SIZE_BYTES
                && final(self).seen@ == old(self).seen@.push((dev, ino)),
            !counted ==> *final(self) == *old(self),
    {
        let mut i: usize = 0;
        while i < self.seen.len()
            invariant
                i <= self.seen@.len(),
                forall|j: int| 0 <= j < i ==> self.seen@[j] != (dev, ino),
            decreases self.seen@.len() - i,
        {
            if self.seen[i].0 == dev && self.seen[i].1 == ino {
                assert(self.seen@[i as int] == (dev, ino));
                return false;
            }
            i = i + 1;
        }
        assert(blocks * 512 <= u64::MAX) by (nonlinear_arith)
            requires
                self.total + blocks * 512 <= u64::MAX,
        ;
        self.total = self.total + blocks * STAT_BLOCK_SIZE_BYTES;
        self.seen.push((dev, ino));
        true
    }
}

} // verus!
