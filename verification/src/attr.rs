//! Item metadata: timestamps, file kinds, and the attribute record.

use vstd::prelude::*;

verus! {

/// Stat-reported size of a directory, and the block size of every item.
pub const BLOCK_SIZE: u64 = 512;

/// A point in time, as seconds and nanoseconds since the epoch.
#[derive(Clone, Copy, Debug, PartialEq, Eq, Structural)]
pub struct TimeSpec {
    pub secs: u64,
    pub nsecs: u32,
}

impl TimeSpec {
    /// The epoch itself; creation times default to it.
    pub fn epoch() -> (r: TimeSpec)
        ensures
            r == (TimeSpec { secs: 0, nsecs: 0 }),
    {
        TimeSpec { secs: 0, nsecs: 0 }
    }
}

/// The kind of a filesystem item. Only directories and regular files are ever
/// stored; the symlink kind exists because the mode nibble can denote it.
#[derive(Clone, Copy, Debug, PartialEq, Eq, Structural)]
pub enum FileKind {
    RegularFile,
    Symlink,
    Directory,
}

/// Per-item metadata, mirroring what the kernel protocol reports in `stat`.
#[derive(Clone, Copy, Debug, PartialEq, Eq, Structural)]
pub struct Attr {
    pub ino: u64,
    pub size: u64,
    pub blocks: u64,
    pub atime: TimeSpec,
    pub mtime: TimeSpec,
    pub ctime: TimeSpec,
    pub crtime: TimeSpec,
    pub kind: FileKind,
    /// 9 POSIX permission bits plus SUID, SGID and sticky: 12 bits in all.
    pub perm: u16,
    pub nlink: u32,
    pub uid: u32,
    pub gid: u32,
    pub rdev: u32,
    pub flags: u32,
    pub blksize: u32,
}

/// Number of 512-byte blocks needed for `size` bytes, rounded up.
pub open spec fn blocks_of(size: u64) -> int {
    (size + 511) / 512
}

/// Computes `blocks_of` executably, without overflowing near `u64::MAX`.
pub fn blocks_for_size(size: u64) -> (r: u64)
    ensures
        r == blocks_of(size),
{
    if size % 512 == 0 {
        size / 512
    } else {
        size / 512 + 1
    }
}

/// The attribute record is internally coherent: the block count matches the
/// size, the block size is fixed, and the permission field holds only its 12
/// bits.
pub open spec fn attr_wf(a: Attr) -> bool {
    &&& a.blocks == blocks_of(a.size)
    &&& a.blksize == BLOCK_SIZE
    &&& a.perm & 0o7777 == a.perm
}

/// The attributes a fresh directory gets: fixed stat size of one block,
/// mode `0o777`, owned by uid 0 / gid 0, link count 2.
pub open spec fn spec_dir_attr(ino: u64, now: TimeSpec) -> Attr {
    Attr {
        ino,
        size: BLOCK_SIZE,
        blocks: 1,
        atime: now,
        mtime: now,
        ctime: now,
        crtime: TimeSpec { secs: 0, nsecs: 0 },
        kind: FileKind::Directory,
        perm: 0o777,
        nlink: 2,
        uid: 0,
        gid: 0,
        rdev: 0,
        flags: 0,
        blksize: BLOCK_SIZE as u32,
    }
}

pub fn dir_attr(ino: u64, now: TimeSpec) -> (r: Attr)
    ensures
        r == spec_dir_attr(ino, now),
        attr_wf(r),
{
    let r = Attr {
        ino,
        size: BLOCK_SIZE,
        blocks: 1,
        atime: now,
        mtime: now,
        ctime: now,
        crtime: TimeSpec { secs: 0, nsecs: 0 },
        kind: FileKind::Directory,
        perm: 0o777,
        nlink: 2,
        uid: 0,
        gid: 0,
        rdev: 0,
        flags: 0,
        blksize: BLOCK_SIZE as u32,
    };
    proof {
        assert(0o777u16 & 0o7777 == 0o777) by (bit_vector);
    }
    r
}

/// The attributes a fresh regular file gets: mode `0o644`, owned by
/// uid 0 / gid 0, link count 1.
pub open spec fn spec_file_attr(ino: u64, size: u64, now: TimeSpec) -> Attr {
    Attr {
        ino,
        size,
        blocks: blocks_of(size) as u64,
        atime: now,
        mtime: now,
        ctime: now,
        crtime: TimeSpec { secs: 0, nsecs: 0 },
        kind: FileKind::RegularFile,
        perm: 0o644,
        nlink: 1,
        uid: 0,
        gid: 0,
        rdev: 0,
        flags: 0,
        blksize: BLOCK_SIZE as u32,
    }
}

pub fn file_attr(ino: u64, size: u64, now: TimeSpec) -> (r: Attr)
    ensures
        r == spec_file_attr(ino, size, now),
        attr_wf(r),
{
    let blocks = blocks_for_size(size);
    proof {
        assert(0o644u16 & 0o7777 == 0o644) by (bit_vector);
    }
    Attr {
        ino,
        size,
        blocks,
        atime: now,
        mtime: now,
        ctime: now,
        crtime: TimeSpec { secs: 0, nsecs: 0 },
        kind: FileKind::RegularFile,
        perm: 0o644,
        nlink: 1,
        uid: 0,
        gid: 0,
        rdev: 0,
        flags: 0,
        blksize: BLOCK_SIZE as u32,
    }
}

} // verus!
