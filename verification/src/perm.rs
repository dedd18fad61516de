//! The permission kernel: pure POSIX access checks, SUID/SGID clearing rules,
//! creation-gid inheritance and mode-to-kind mapping.

use vstd::prelude::*;
use crate::attr::{Attr, FileKind};

verus! {

// Access-mask bits, as the kernel protocol delivers them.
pub const F_OK: i32 = 0;
pub const X_OK: i32 = 1;
pub const W_OK: i32 = 2;
pub const R_OK: i32 = 4;

// The file-type nibble of a creation mode.
pub const S_IFMT: u32 = 0o170000;
pub const S_IFREG: u32 = 0o100000;
pub const S_IFDIR: u32 = 0o040000;
pub const S_IFLNK: u32 = 0o120000;

// The high mode bits.
pub const S_ISUID: u16 = 0o4000;
pub const S_ISGID: u16 = 0o2000;
pub const S_ISVTX: u16 = 0o1000;

// Per-triad execute bits.
pub const S_IXUSR: u16 = 0o100;
pub const S_IXGRP: u16 = 0o010;
pub const S_IXOTH: u16 = 0o001;

// Open-flag bits.
pub const O_RDONLY: i32 = 0;
pub const O_WRONLY: i32 = 1;
pub const O_RDWR: i32 = 2;
pub const O_ACCMODE: i32 = 3;
pub const O_TRUNC: i32 = 0o1000;
/// Flag the kernel sets on an open that comes from an exec syscall.
pub const FMODE_EXEC: i32 = 0x20;

/// Open reply flag that bypasses the kernel page cache.
pub const FOPEN_DIRECT_IO: u32 = 1;

/// What `check_access` returns. `F_OK` only tests existence. Root may read
/// and write anything, and execute whenever some execute bit is set. Everyone
/// else is served by exactly one triad: owner if the uid matches, else group
/// if the gid matches, else other; every requested bit must be present there.
pub open spec fn spec_check_access(
    file_uid: u32,
    file_gid: u32,
    file_mode: u16,
    uid: u32,
    gid: u32,
    access_mask: i32,
) -> bool {
    if access_mask == F_OK {
        true
    } else {
        let mode = file_mode as i32;
        if uid == 0 {
            (access_mask & X_OK) & !(mode >> 6) & !(mode >> 3) & !mode == 0
        } else if uid == file_uid {
            access_mask & !(mode >> 6) == 0
        } else if gid == file_gid {
            access_mask & !(mode >> 3) == 0
        } else {
            access_mask & !mode == 0
        }
    }
}

pub fn check_access(
    file_uid: u32,
    file_gid: u32,
    file_mode: u16,
    uid: u32,
    gid: u32,
    access_mask: i32,
) -> (r: bool)
    ensures
        r == spec_check_access(file_uid, file_gid, file_mode, uid, gid, access_mask),
{
    if access_mask == F_OK {
        return true;
    }
    let mode = file_mode as i32;
    if uid == 0 {
        // Root reads and writes anything; execute needs some execute bit.
        (access_mask & X_OK) & !(mode >> 6) & !(mode >> 3) & !mode == 0
    } else if uid == file_uid {
        access_mask & !(mode >> 6) == 0
    } else if gid == file_gid {
        access_mask & !(mode >> 3) == 0
    } else {
        access_mask & !mode == 0
    }
}

/// Access as root succeeds exactly when the mask holds no execute bit, or at
/// least one execute bit is set in the permission word.
pub proof fn lemma_root_access(file_uid: u32, file_gid: u32, file_mode: u16, gid: u32, mask: i32)
    ensures
        spec_check_access(file_uid, file_gid, file_mode, 0, gid, mask) == (mask & X_OK == 0
            || file_mode & 0o111 != 0),
{
    if mask == F_OK {
        assert(mask & X_OK == 0) by (bit_vector)
            requires
                mask == 0,
        ;
    } else {
        let mode = file_mode as i32;
        assert(((mask & 1) & !(mode >> 6) & !(mode >> 3) & !mode == 0) == (mask & 1 == 0
            || file_mode & 0o111 != 0)) by (bit_vector)
            requires
                mode == file_mode as i32,
        ;
    }
}

/// For a non-root caller who owns the file, and a mask within the rwx bits,
/// the outcome depends only on the owner triad of the permission word.
pub proof fn lemma_owner_access_owner_triad_only(
    u: u32,
    g1: u32,
    g2: u32,
    rg1: u32,
    rg2: u32,
    p1: u16,
    p2: u16,
    mask: i32,
)
    requires
        u != 0,
        0 <= mask <= 7,
        (p1 >> 6) & 7 == (p2 >> 6) & 7,
    ensures
        spec_check_access(u, g1, p1, u, rg1, mask) == spec_check_access(u, g2, p2, u, rg2, mask),
{
    if mask != F_OK {
        let m1 = p1 as i32;
        let m2 = p2 as i32;
        assert((mask & !(m1 >> 6) == 0) == (mask & !(m2 >> 6) == 0)) by (bit_vector)
            requires
                m1 == p1 as i32,
                m2 == p2 as i32,
                (p1 >> 6) & 7 == (p2 >> 6) & 7,
                0 <= mask <= 7,
        ;
    }
}

/// Group inherited at creation: the parent's gid when the parent carries the
/// SGID bit, otherwise the requester's gid.
pub open spec fn spec_creation_gid(parent_perm: u16, parent_gid: u32, gid: u32) -> u32 {
    if parent_perm & S_ISGID != 0 {
        parent_gid
    } else {
        gid
    }
}

pub fn creation_gid(parent: &Attr, gid: u32) -> (r: u32)
    ensures
        r == spec_creation_gid(parent.perm, parent.gid, gid),
{
    if parent.perm & S_ISGID != 0 {
        parent.gid
    } else {
        gid
    }
}

/// SUID always goes; SGID goes only when group-execute is set (SGID without
/// group-execute denotes mandatory locking and is preserved).
pub open spec fn spec_clear_suid_sgid(perm: u16) -> u16 {
    let p = perm & !S_ISUID;
    if p & S_IXGRP != 0 {
        p & !S_ISGID
    } else {
        p
    }
}

pub fn clear_suid_sgid(attr: &mut Attr)
    ensures
        *final(attr) == (Attr { perm: spec_clear_suid_sgid(old(attr).perm), ..*old(attr) }),
{
    attr.perm = attr.perm & !S_ISUID;
    if attr.perm & S_IXGRP != 0 {
        attr.perm = attr.perm & !S_ISGID;
    }
}

/// Clearing SUID/SGID keeps the permission word within its 12 bits.
pub proof fn lemma_clear_suid_sgid_masked(perm: u16)
    requires
        perm & 0o7777 == perm,
    ensures
        spec_clear_suid_sgid(perm) & 0o7777 == spec_clear_suid_sgid(perm),
{
    assert((perm & !0o4000) & 0o7777 == (perm & !0o4000) && ((perm & !0o4000) & !0o2000) & 0o7777
        == ((perm & !0o4000) & !0o2000)) by (bit_vector)
        requires
            perm & 0o7777 == perm,
    ;
}

/// Whether the type nibble denotes a kind this engine can name.
pub open spec fn supported_kind(mode: u32) -> bool {
    mode & S_IFMT == S_IFREG || mode & S_IFMT == S_IFLNK || mode & S_IFMT == S_IFDIR
}

pub open spec fn spec_file_kind(mode: u32) -> FileKind {
    if mode & S_IFMT == S_IFREG {
        FileKind::RegularFile
    } else if mode & S_IFMT == S_IFLNK {
        FileKind::Symlink
    } else {
        FileKind::Directory
    }
}

/// Extracts the type nibble. Other nibbles are a programming error in this
/// engine's scope, so they are excluded up front.
pub fn as_file_kind(mode: u32) -> (r: FileKind)
    requires
        supported_kind(mode),
    ensures
        r == spec_file_kind(mode),
{
    let t = mode & S_IFMT;
    if t == S_IFREG {
        FileKind::RegularFile
    } else if t == S_IFLNK {
        FileKind::Symlink
    } else {
        FileKind::Directory
    }
}

} // verus!
