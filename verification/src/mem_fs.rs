//! The request dispatcher: one method per kernel-protocol operation, each a
//! mutation or query of the in-memory filesystem composed from the node
//! store and the permission kernel.
//!
//! Every operation takes the request identity and, where times are touched,
//! the current wall-clock instant; the transport supplies both. Group
//! membership is likewise injected: the provider reads the host, the engine
//! takes the resulting list.

use vstd::prelude::*;
use crate::attr::{Attr, FileKind, TimeSpec, blocks_of, dir_attr, file_attr, spec_dir_attr, spec_file_attr, blocks_for_size};
use crate::perm::{check_access, spec_check_access, creation_gid, spec_creation_gid, spec_clear_suid_sgid, R_OK, W_OK, X_OK, S_IFMT, S_IFREG, S_IFDIR, S_ISUID, S_ISGID, S_ISVTX, S_IXUSR, S_IXGRP, S_IXOTH, O_RDONLY, O_WRONLY, O_RDWR, O_ACCMODE, O_TRUNC, FMODE_EXEC, FOPEN_DIRECT_IO};
use crate::tree_fs::{TreeFs, Item, item_wf, unchanged_at, lemma_item_coherent, lemma_children_linked, lemma_sibling_names_unique, lemma_child_named_unique, lemma_child_named_props, lemma_file_no_children};

verus! {

/// The identity a request carries: the caller's uid, gid and pid.
#[derive(Clone, Copy, Debug, PartialEq, Eq, Structural)]
pub struct Request {
    pub uid: u32,
    pub gid: u32,
    pub pid: u32,
}

/// The errno values this engine returns; the transport carries them to the
/// kernel as integer codes.
#[derive(Clone, Copy, Debug, PartialEq, Eq, Structural)]
pub enum Errno {
    ENOENT,
    EEXIST,
    EACCES,
    EPERM,
    EINVAL,
    ENOSYS,
    ENOTEMPTY,
}

/// A time to set: a given instant, or "now" as the transport sees it.
#[derive(Clone, Copy, Debug, PartialEq, Eq, Structural)]
pub enum TimeOrNow {
    SpecificTime(TimeSpec),
    Now,
}

/// One directory entry as `readdir` reports it.
pub struct DirEntry {
    pub ino: u64,
    pub kind: FileKind,
    pub name: String,
}

/// The engine: the node store, the two mount options, and the inode and
/// file-handle counters.
pub struct MemFs {
    tree_fs: TreeFs,
    direct_io: bool,
    suid_support: bool,
    current_inode: u64,
    current_file_handle: u64,
}

/// Membership test used for the injected group list.
pub fn contains_u32(v: &Vec<u32>, x: u32) -> (r: bool)
    ensures
        r == v@.contains(x),
{
    let mut i: usize = 0;
    while i < v.len()
        invariant
            i <= v@.len(),
            forall|j: int| 0 <= j < i ==> v@[j] != x,
        decreases v@.len() - i,
    {
        if v[i] == x {
            return true;
        }
        i = i + 1;
    }
    false
}

impl MemFs {
    /// The node store, for stating what each operation does to it.
    pub closed spec fn fs(self) -> TreeFs {
        self.tree_fs
    }

    /// The highest inode handed out so far; the next item gets the successor.
    pub closed spec fn ino_ctr(self) -> u64 {
        self.current_inode
    }

    /// The highest file handle handed out so far.
    pub closed spec fn fh_ctr(self) -> u64 {
        self.current_file_handle
    }

    pub closed spec fn spec_direct_io(self) -> bool {
        self.direct_io
    }

    pub closed spec fn spec_suid_support(self) -> bool {
        self.suid_support
    }

    /// The engine invariant: the store is well-formed and every live ino was
    /// handed out by the counter, so the next allocation is fresh.
    pub open spec fn wf(self) -> bool {
        &&& self.fs().wf()
        &&& self.ino_ctr() >= 1
        &&& forall|i: u64| #[trigger] self.fs().contains(i) ==> 1 <= i <= self.ino_ctr()
    }

    /// A fresh engine: empty store, counters at their start values, the two
    /// mount options as given.
    pub fn new(direct_io: bool, suid_support: bool) -> (r: MemFs)
        ensures
            r.wf(),
            r.fs().root_ino() is None,
            forall|i: u64| !r.fs().contains(i),
            r.ino_ctr() == 1,
            r.fh_ctr() == 0,
            r.spec_direct_io() == direct_io,
            r.spec_suid_support() == suid_support,
    {
        MemFs {
            tree_fs: TreeFs::new(),
            direct_io,
            suid_support,
            current_inode: 1,
            current_file_handle: 0,
        }
    }

    fn allocate_next_inode(&mut self) -> (r: u64)
        requires
            old(self).ino_ctr() < u64::MAX,
        ensures
            r == old(self).ino_ctr() + 1,
            *final(self) == (MemFs { current_inode: r, ..*old(self) }),
    {
        self.current_inode = self.current_inode + 1;
        self.current_inode
    }

    fn allocate_next_file_handle(&mut self) -> (r: u64)
        requires
            old(self).fh_ctr() < u64::MAX,
        ensures
            r == old(self).fh_ctr() + 1,
            *final(self) == (MemFs { current_file_handle: r, ..*old(self) }),
    {
        self.current_file_handle = self.current_file_handle + 1;
        self.current_file_handle
    }

    /// Whether the counters can still hand out a fresh inode and file handle.
    /// They are 64-bit and treated as inexhaustible; callers outside the
    /// engine test this once per request and abort if it ever turns false.
    pub fn counters_available(&self) -> (r: bool)
        ensures
            r == (self.ino_ctr() < u64::MAX && self.fh_ctr() < u64::MAX),
    {
        self.current_inode < u64::MAX && self.current_file_handle < u64::MAX
    }

    /// The permission word a new item receives: with SUID support disabled at
    /// mount, the SUID and SGID bits are stripped; the word keeps its 12 bits.
    pub open spec fn spec_creation_mode(suid_support: bool, mode: u32) -> u16 {
        if !suid_support {
            ((mode & 0o7777) as u16) & !S_ISUID & !S_ISGID
        } else {
            (mode & 0o7777) as u16
        }
    }

    pub fn creation_mode(&self, mode: u32) -> (r: u16)
        ensures
            r == MemFs::spec_creation_mode(self.spec_suid_support(), mode),
            r & 0o7777 == r,
    {
        proof {
            assert(((mode & 0o7777) as u16) & 0o7777 == ((mode & 0o7777) as u16) && (((mode
                & 0o7777) as u16) & !S_ISUID & !S_ISGID) & 0o7777 == (((mode & 0o7777) as u16)
                & !S_ISUID & !S_ISGID)) by (bit_vector);
        }
        if !self.suid_support {
            ((mode & 0o7777) as u16) & !S_ISUID & !S_ISGID
        } else {
            (mode & 0o7777) as u16
        }
    }

    /// Creates the root lazily: ino 1, name "root", mode `0o777`, owned by
    /// uid 0 / gid 0, link count 2. A second call finds the root and does
    /// nothing.
    pub fn init(&mut self, now: TimeSpec)
        requires
            old(self).wf(),
        ensures
            final(self).wf(),
            old(self).fs().root_ino() is Some ==> *final(self) == *old(self),
            old(self).fs().root_ino() is None ==> {
                &&& final(self).fs().root_ino() == Some(1u64)
                &&& final(self).fs().contains(1)
                &&& final(self).fs().item(1).ino == 1
                &&& final(self).fs().item(1).is_dir
                &&& final(self).fs().item(1).attr == spec_dir_attr(1, now)
                &&& final(self).fs().item(1).name@ == "root"@
                &&& final(self).fs().item(1).data@ == Seq::<u8>::empty()
                &&& final(self).fs().children(1) =~= Seq::<u64>::empty()
                &&& (forall|i: u64| final(self).fs().contains(i) <==> i == 1)
                &&& final(self).ino_ctr() == old(self).ino_ctr()
                &&& final(self).fh_ctr() == old(self).fh_ctr()
                &&& final(self).spec_direct_io() == old(self).spec_direct_io()
                &&& final(self).spec_suid_support() == old(self).spec_suid_support()
            },
    {
        match self.tree_fs.get_root() {
            Some(_) => {},
            None => {
                let a = dir_attr(1, now);
                let item = Item::new(1, "root".to_owned(), true, a);
                let _ = self.tree_fs.set_root(item);
            },
        }
    }

    /// Returns the item's attributes; no permission check.
    pub open spec fn getattr_spec(self, ino: u64) -> Result<Attr, Errno> {
        if self.fs().contains(ino) {
            Ok(self.fs().item(ino).attr)
        } else {
            Err(Errno::ENOENT)
        }
    }

    pub fn getattr(&self, ino: u64) -> (r: Result<Attr, Errno>)
        requires
            self.wf(),
        ensures
            r == self.getattr_spec(ino),
    {
        match self.tree_fs.get_item(ino) {
            Some(item) => Ok(item.attr),
            None => Err(Errno::ENOENT),
        }
    }

    /// `check_access` against the item's attributes.
    pub open spec fn access_spec(self, req: Request, ino: u64, mask: i32) -> Result<(), Errno> {
        if !self.fs().contains(ino) {
            Err(Errno::ENOENT)
        } else if spec_check_access(
            self.fs().item(ino).attr.uid,
            self.fs().item(ino).attr.gid,
            self.fs().item(ino).attr.perm,
            req.uid,
            req.gid,
            mask,
        ) {
            Ok(())
        } else {
            Err(Errno::EACCES)
        }
    }

    pub fn access(&self, req: Request, ino: u64, mask: i32) -> (r: Result<(), Errno>)
        requires
            self.wf(),
        ensures
            r == self.access_spec(req, ino, mask),
    {
        match self.tree_fs.get_item(ino) {
            Some(item) => {
                if check_access(item.attr.uid, item.attr.gid, item.attr.perm, req.uid, req.gid, mask) {
                    Ok(())
                } else {
                    Err(Errno::EACCES)
                }
            },
            None => Err(Errno::ENOENT),
        }
    }

    /// Closing a directory handle succeeds while the inode lives, and reports
    /// `ENOENT` once it is gone. Handles carry no state of their own.
    pub fn releasedir(&self, ino: u64) -> (r: Result<(), Errno>)
        requires
            self.wf(),
        ensures
            r == if self.fs().contains(ino) {
                Ok::<(), Errno>(())
            } else {
                Err::<(), Errno>(Errno::ENOENT)
            },
    {
        match self.tree_fs.get_item(ino) {
            Some(_) => Ok(()),
            None => Err(Errno::ENOENT),
        }
    }

    /// Looks a child up by name under `parent`; needs execute on the parent.
    pub open spec fn lookup_spec(self, req: Request, parent: u64, name: Seq<char>) -> Result<
        Attr,
        Errno,
    > {
        if !self.fs().contains(parent) {
            Err(Errno::ENOENT)
        } else if !spec_check_access(
            self.fs().item(parent).attr.uid,
            self.fs().item(parent).attr.gid,
            self.fs().item(parent).attr.perm,
            req.uid,
            req.gid,
            X_OK,
        ) {
            Err(Errno::EACCES)
        } else if self.fs().has_child_named(parent, name) {
            Ok(self.fs().item(self.fs().child_named(parent, name)).attr)
        } else {
            Err(Errno::ENOENT)
        }
    }

    pub fn lookup(&self, req: Request, parent: u64, name: &String) -> (r: Result<Attr, Errno>)
        requires
            self.wf(),
        ensures
            r == self.lookup_spec(req, parent, name@),
    {
        let parent_item = match self.tree_fs.get_item(parent) {
            Some(it) => it,
            None => {
                return Err(Errno::ENOENT);
            },
        };
        if !check_access(
            parent_item.attr.uid,
            parent_item.attr.gid,
            parent_item.attr.perm,
            req.uid,
            req.gid,
            X_OK,
        ) {
            return Err(Errno::EACCES);
        }
        match self.tree_fs.find_child(parent, name) {
            Some(c) => {
                proof {
                    lemma_child_named_props(self.fs(), parent, name@);
                }
                match self.tree_fs.get_item(c) {
                    Some(child) => Ok(child.attr),
                    None => Err(Errno::ENOENT),
                }
            },
            None => Err(Errno::ENOENT),
        }
    }
}

/// Bytes a read yields: `min(size, len - offset)` bytes from `offset`; an
/// offset at or past the end yields nothing.
pub open spec fn read_bytes(data: Seq<u8>, offset: u64, size: u32) -> Seq<u8> {
    if offset >= data.len() {
        Seq::empty()
    } else if data.len() < offset + size {
        data.subrange(offset as int, data.len() as int)
    } else {
        data.subrange(offset as int, offset + size)
    }
}

/// Content after an overwrite at `offset`: the buffer grows as needed, and a
/// gap between the old end and the offset reads as zeros.
pub open spec fn splice_bytes(base: Seq<u8>, offset: u64, d: Seq<u8>) -> Seq<u8> {
    Seq::new(
        (if base.len() >= offset + d.len() {
            base.len() as int
        } else {
            offset + d.len()
        }) as nat,
        |i: int|
            if offset <= i < offset + d.len() {
                d[i - offset]
            } else if i < base.len() {
                base[i]
            } else {
                0u8
            },
    )
}

/// Counters and mount options are untouched.
pub open spec fn same_opts_counters(pre: MemFs, post: MemFs) -> bool {
    &&& post.ino_ctr() == pre.ino_ctr()
    &&& post.fh_ctr() == pre.fh_ctr()
    &&& post.spec_direct_io() == pre.spec_direct_io()
    &&& post.spec_suid_support() == pre.spec_suid_support()
}

/// The store changed in at most this one item's payload: same live set, same
/// root, same shape, every other item untouched.
pub open spec fn tree_frame_except(pre: MemFs, post: MemFs, ino: u64) -> bool {
    &&& post.fs().root_ino() == pre.fs().root_ino()
    &&& (forall|i: u64| post.fs().contains(i) == pre.fs().contains(i))
    &&& (forall|i: u64|
        pre.fs().contains(i) && i != ino ==> unchanged_at(pre.fs(), post.fs(), i))
    &&& post.fs().children(ino) == pre.fs().children(ino)
    &&& post.fs().parent(ino) == pre.fs().parent(ino)
}

/// Builds the spliced content of a write executably.
fn spliced(base: &Vec<u8>, offset: usize, d: &Vec<u8>) -> (r: Vec<u8>)
    requires
        offset + d@.len() <= usize::MAX,
    ensures
        r@ == splice_bytes(base@, offset as u64, d@),
{
    let total = if base.len() >= offset + d.len() {
        base.len()
    } else {
        offset + d.len()
    };
    let mut out: Vec<u8> = Vec::new();
    let mut i: usize = 0;
    while i < total
        invariant
            i <= total,
            out@.len() == i,
            offset + d@.len() <= usize::MAX,
            total == if base@.len() >= offset + d@.len() {
                base@.len() as int
            } else {
                offset + d@.len()
            },
            forall|j: int|
                0 <= j < i ==> out@[j] == splice_bytes(base@, offset as u64, d@)[j],
        decreases total - i,
    {
        let b: u8 = if offset <= i && i < offset + d.len() {
            d[i - offset]
        } else if i < base.len() {
            base[i]
        } else {
            0
        };
        out.push(b);
        i = i + 1;
    }
    proof {
        assert(out@ =~= splice_bytes(base@, offset as u64, d@));
    }
    out
}

impl MemFs {
    /// Reads from a regular file: `min(size, len - offset)` bytes starting at
    /// `offset`; past the end, empty data and no error.
    pub open spec fn read_spec(self, ino: u64, offset: u64, size: u32) -> Result<Seq<u8>, Errno> {
        if !self.fs().contains(ino) || self.fs().item(ino).is_dir {
            Err(Errno::ENOENT)
        } else {
            Ok(read_bytes(self.fs().item(ino).data@, offset, size))
        }
    }

    pub fn read(&self, ino: u64, offset: u64, size: u32) -> (r: Result<Vec<u8>, Errno>)
        requires
            self.wf(),
        ensures
            (r is Ok) == (self.read_spec(ino, offset, size) is Ok),
            r is Ok ==> r->Ok_0@ == self.read_spec(ino, offset, size)->Ok_0,
            r is Err ==> Err::<Seq<u8>, Errno>(r->Err_0) == self.read_spec(ino, offset, size),
    {
        let item = match self.tree_fs.get_item(ino) {
            Some(it) => it,
            None => {
                return Err(Errno::ENOENT);
            },
        };
        if item.is_dir {
            return Err(Errno::ENOENT);
        }
        let data = &item.data;
        if offset >= data.len() as u64 {
            return Ok(Vec::new());
        }
        let off = offset as usize;
        let remaining = data.len() - off;
        let n = if remaining < size as usize {
            remaining
        } else {
            size as usize
        };
        let mut out: Vec<u8> = Vec::new();
        let mut i: usize = 0;
        while i < n
            invariant
                i <= n,
                off + n <= data@.len(),
                data@.len() <= usize::MAX,
                out@.len() == i,
                forall|j: int| 0 <= j < i ==> out@[j] == data@[off + j],
            decreases n - i,
        {
            out.push(data[off + i]);
            i = i + 1;
        }
        proof {
            assert(out@ =~= read_bytes(data@, offset, size));
        }
        Ok(out)
    }

    /// Overwrites a regular file from `offset`; the buffer grows as needed,
    /// the reported size follows, and the whole input counts as written.
    pub fn write(&mut self, ino: u64, offset: u64, data: &Vec<u8>) -> (r: Result<u32, Errno>)
        requires
            old(self).wf(),
            offset + data@.len() <= usize::MAX,
            data@.len() <= u32::MAX,
        ensures
            final(self).wf(),
            (r is Ok) == (old(self).fs().contains(ino) && !old(self).fs().item(ino).is_dir),
            r is Err ==> *final(self) == *old(self) && r == Err::<u32, Errno>(Errno::ENOENT),
            r is Ok ==> r == Ok::<u32, Errno>(data@.len() as u32) && {
                let it = old(self).fs().item(ino);
                let d2 = splice_bytes(it.data@, offset, data@);
                &&& final(self).fs().contains(ino)
                &&& final(self).fs().item(ino).data@ == d2
                &&& final(self).fs().item(ino).attr == (Attr {
                    size: d2.len() as u64,
                    blocks: blocks_of(d2.len() as u64) as u64,
                    ..it.attr
                })
                &&& final(self).fs().item(ino).name == it.name
                &&& final(self).fs().item(ino).is_dir == it.is_dir
                &&& final(self).fs().item(ino).ino == it.ino
                &&& tree_frame_except(*old(self), *final(self), ino)
                &&& same_opts_counters(*old(self), *final(self))
            },
    {
        let item = match self.tree_fs.get_item(ino) {
            Some(it) => it,
            None => {
                return Err(Errno::ENOENT);
            },
        };
        if item.is_dir {
            return Err(Errno::ENOENT);
        }
        let newd = spliced(&item.data, offset as usize, data);
        self.tree_fs.set_content(ino, newd);
        Ok(data.len() as u32)
    }

    /// The access mask an open derives from its flags: exactly one of the
    /// three access modes must be set; read-only with truncation is refused;
    /// an exec-driven read-only open (where honoured) asks execute, not read.
    pub open spec fn open_mask(flags: i32, honour_exec: bool) -> Result<i32, Errno> {
        if flags & O_ACCMODE == O_RDONLY {
            if flags & O_TRUNC != 0 {
                Err(Errno::EACCES)
            } else if honour_exec && flags & FMODE_EXEC != 0 {
                Ok(X_OK)
            } else {
                Ok(R_OK)
            }
        } else if flags & O_ACCMODE == O_WRONLY {
            Ok(W_OK)
        } else if flags & O_ACCMODE == O_RDWR {
            Ok(R_OK | W_OK)
        } else {
            Err(Errno::EINVAL)
        }
    }

    /// What an open decides, before a handle is drawn: the reply's open flags
    /// on success (the direct-IO bit when mounted so), or the error.
    pub open spec fn open_spec(self, req: Request, ino: u64, flags: i32, honour_exec: bool) -> Result<
        u32,
        Errno,
    > {
        match MemFs::open_mask(flags, honour_exec) {
            Err(e) => Err(e),
            Ok(mask) => {
                if !self.fs().contains(ino) {
                    Err(Errno::ENOENT)
                } else if spec_check_access(
                    self.fs().item(ino).attr.uid,
                    self.fs().item(ino).attr.gid,
                    self.fs().item(ino).attr.perm,
                    req.uid,
                    req.gid,
                    mask,
                ) {
                    Ok(
                        if self.spec_direct_io() {
                            FOPEN_DIRECT_IO
                        } else {
                            0
                        },
                    )
                } else {
                    Err(Errno::EACCES)
                }
            },
        }
    }

    fn open_common(&mut self, req: Request, ino: u64, flags: i32, honour_exec: bool) -> (r: Result<
        (u64, u32),
        Errno,
    >)
        requires
            old(self).wf(),
            old(self).fh_ctr() < u64::MAX,
        ensures
            final(self).wf(),
            final(self).fs() == old(self).fs(),
            final(self).ino_ctr() == old(self).ino_ctr(),
            final(self).spec_direct_io() == old(self).spec_direct_io(),
            final(self).spec_suid_support() == old(self).spec_suid_support(),
            r == match old(self).open_spec(req, ino, flags, honour_exec) {
                Ok(f) => Ok::<(u64, u32), Errno>(((old(self).fh_ctr() + 1) as u64, f)),
                Err(e) => Err::<(u64, u32), Errno>(e),
            },
            r is Ok ==> final(self).fh_ctr() == old(self).fh_ctr() + 1,
            r is Err ==> *final(self) == *old(self),
    {
        let accmode = flags & O_ACCMODE;
        let mask: i32;
        if accmode == O_RDONLY {
            if flags & O_TRUNC != 0 {
                return Err(Errno::EACCES);
            }
            if honour_exec && flags & FMODE_EXEC != 0 {
                mask = X_OK;
            } else {
                mask = R_OK;
            }
        } else if accmode == O_WRONLY {
            mask = W_OK;
        } else if accmode == O_RDWR {
            mask = R_OK | W_OK;
        } else {
            return Err(Errno::EINVAL);
        }
        let item = match self.tree_fs.get_item(ino) {
            Some(it) => it,
            None => {
                return Err(Errno::ENOENT);
            },
        };
        if check_access(item.attr.uid, item.attr.gid, item.attr.perm, req.uid, req.gid, mask) {
            let open_flags = if self.direct_io {
                FOPEN_DIRECT_IO
            } else {
                0
            };
            let fh = self.allocate_next_file_handle();
            Ok((fh, open_flags))
        } else {
            Err(Errno::EACCES)
        }
    }

    /// Opens a regular file: validates the access mode, checks permission
    /// with the derived mask, and draws a fresh handle.
    pub fn open(&mut self, req: Request, ino: u64, flags: i32) -> (r: Result<(u64, u32), Errno>)
        requires
            old(self).wf(),
            old(self).fh_ctr() < u64::MAX,
        ensures
            final(self).wf(),
            final(self).fs() == old(self).fs(),
            final(self).ino_ctr() == old(self).ino_ctr(),
            final(self).spec_direct_io() == old(self).spec_direct_io(),
            final(self).spec_suid_support() == old(self).spec_suid_support(),
            r == match old(self).open_spec(req, ino, flags, true) {
                Ok(f) => Ok::<(u64, u32), Errno>(((old(self).fh_ctr() + 1) as u64, f)),
                Err(e) => Err::<(u64, u32), Errno>(e),
            },
            r is Ok ==> final(self).fh_ctr() == old(self).fh_ctr() + 1,
            r is Err ==> *final(self) == *old(self),
    {
        self.open_common(req, ino, flags, true)
    }

    /// Opens a directory handle; like `open`, but an exec-flagged open draws
    /// no special mask, and a permission failure is reported as `EACCES`.
    pub fn opendir(&mut self, req: Request, ino: u64, flags: i32) -> (r: Result<(u64, u32), Errno>)
        requires
            old(self).wf(),
            old(self).fh_ctr() < u64::MAX,
        ensures
            final(self).wf(),
            final(self).fs() == old(self).fs(),
            final(self).ino_ctr() == old(self).ino_ctr(),
            final(self).spec_direct_io() == old(self).spec_direct_io(),
            final(self).spec_suid_support() == old(self).spec_suid_support(),
            r == match old(self).open_spec(req, ino, flags, false) {
                Ok(f) => Ok::<(u64, u32), Errno>(((old(self).fh_ctr() + 1) as u64, f)),
                Err(e) => Err::<(u64, u32), Errno>(e),
            },
            r is Ok ==> final(self).fh_ctr() == old(self).fh_ctr() + 1,
            r is Err ==> *final(self) == *old(self),
    {
        self.open_common(req, ino, flags, false)
    }
}

/// Everything the shared create routine does on success, relating the state
/// before to the state after: a fresh ino is drawn, the new item hangs last
/// under the parent with the computed attributes, the parent's mtime and
/// ctime move to `now`, and nothing else changes.
pub open spec fn create_post(
    pre: MemFs,
    post: MemFs,
    req: Request,
    parent: u64,
    name: Seq<char>,
    mode: u32,
    make_dir: bool,
    inherit_sgid: bool,
    now: TimeSpec,
    r: Result<Attr, Errno>,
) -> bool {
    match pre.create_err(req, parent, name) {
        Some(e) => r == Err::<Attr, Errno>(e) && post.fs() == pre.fs() && post.ino_ctr()
            == pre.ino_ctr(),
        None => {
            let ino = (pre.ino_ctr() + 1) as u64;
            let a = pre.created_attr(req, parent, mode, make_dir, inherit_sgid, now);
            &&& r == Ok::<Attr, Errno>(a)
            &&& post.ino_ctr() == ino
            &&& post.fs().contains(ino)
            &&& post.fs().item(ino).attr == a
            &&& post.fs().item(ino).name@ == name
            &&& post.fs().item(ino).is_dir == make_dir
            &&& post.fs().item(ino).ino == ino
            &&& post.fs().item(ino).data@ == Seq::<u8>::empty()
            &&& post.fs().children(ino) =~= Seq::<u64>::empty()
            &&& post.fs().parent(ino) == Some(parent)
            &&& post.fs().children(parent) == pre.fs().children(parent).push(ino)
            &&& post.fs().item(parent) == (Item {
                attr: (Attr { mtime: now, ctime: now, ..pre.fs().item(parent).attr }),
                ..pre.fs().item(parent)
            })
            &&& post.fs().parent(parent) == pre.fs().parent(parent)
            &&& post.fs().root_ino() == pre.fs().root_ino()
            &&& (forall|i: u64| post.fs().contains(i) <==> (pre.fs().contains(i) || i == ino))
            &&& (forall|i: u64|
                pre.fs().contains(i) && i != parent ==> unchanged_at(pre.fs(), post.fs(), i))
        },
    }
}

impl MemFs {
    /// Why the shared create routine rejects: missing or non-directory
    /// parent, an existing child of that name, or no write permission.
    pub open spec fn create_err(self, req: Request, parent: u64, name: Seq<char>) -> Option<
        Errno,
    > {
        if !self.fs().contains(parent) || !self.fs().item(parent).is_dir {
            Some(Errno::ENOENT)
        } else if self.fs().has_child_named(parent, name) {
            Some(Errno::EEXIST)
        } else if !spec_check_access(
            self.fs().item(parent).attr.uid,
            self.fs().item(parent).attr.gid,
            self.fs().item(parent).attr.perm,
            req.uid,
            req.gid,
            W_OK,
        ) {
            Some(Errno::EACCES)
        } else {
            None
        }
    }

    /// The attributes a successful create gives the new item: the defaults
    /// for its kind, then the requested mode with SUID/SGID stripped for
    /// non-root callers, the parent's SGID inherited where asked, the mount's
    /// creation-mode policy applied, the requester as owner, and the group
    /// from `creation_gid`.
    pub open spec fn created_attr(
        self,
        req: Request,
        parent: u64,
        mode: u32,
        make_dir: bool,
        inherit_sgid: bool,
        now: TimeSpec,
    ) -> Attr {
        let ino = (self.ino_ctr() + 1) as u64;
        let pa = self.fs().item(parent).attr;
        let m1 = if req.uid != 0 {
            mode & !0o6000u32
        } else {
            mode
        };
        let m2 = if inherit_sgid && pa.perm & S_ISGID != 0 {
            m1 | 0o2000u32
        } else {
            m1
        };
        let base = if make_dir {
            spec_dir_attr(ino, now)
        } else {
            spec_file_attr(ino, 0, now)
        };
        Attr {
            perm: MemFs::spec_creation_mode(self.spec_suid_support(), m2),
            uid: req.uid,
            gid: spec_creation_gid(pa.perm, pa.gid, req.gid),
            ..base
        }
    }

    /// The shared create routine behind `mknod`, `mkdir` and `create`.
    fn create_nod(
        &mut self,
        req: Request,
        parent: u64,
        name: &String,
        mode: u32,
        make_dir: bool,
        inherit_sgid: bool,
        now: TimeSpec,
    ) -> (r: Result<Attr, Errno>)
        requires
            old(self).wf(),
            old(self).ino_ctr() < u64::MAX,
        ensures
            final(self).wf(),
            create_post(
                *old(self),
                *final(self),
                req,
                parent,
                name@,
                mode,
                make_dir,
                inherit_sgid,
                now,
                r,
            ),
            final(self).fh_ctr() == old(self).fh_ctr(),
            final(self).spec_direct_io() == old(self).spec_direct_io(),
            final(self).spec_suid_support() == old(self).spec_suid_support(),
            r is Err ==> *final(self) == *old(self),
    {
        let (pa, p_is_dir) = match self.tree_fs.get_item(parent) {
            Some(it) => (it.attr, it.is_dir),
            None => {
                return Err(Errno::ENOENT);
            },
        };
        if !p_is_dir {
            return Err(Errno::ENOENT);
        }
        if self.tree_fs.find_child(parent, name).is_some() {
            return Err(Errno::EEXIST);
        }
        if !check_access(pa.uid, pa.gid, pa.perm, req.uid, req.gid, W_OK) {
            return Err(Errno::EACCES);
        }
        let ghost pre = *self;
        proof {
            lemma_item_coherent(pre.fs(), parent);
        }
        let pa2 = Attr { mtime: now, ctime: now, ..pa };
        self.tree_fs.set_attr(parent, pa2);
        let mut m = mode;
        if req.uid != 0 {
            m = m & !0o6000u32;
        }
        if inherit_sgid {
            if pa.perm & S_ISGID != 0 {
                m = m | 0o2000u32;
            }
        }
        let ino = self.allocate_next_inode();
        let mut attr = if make_dir {
            dir_attr(ino, now)
        } else {
            file_attr(ino, 0, now)
        };
        attr.perm = self.creation_mode(m);
        attr.uid = req.uid;
        attr.gid = creation_gid(&pa, req.gid);
        let item = Item::new(ino, name.clone(), make_dir, attr);
        proof {
            assert(item_wf(item));
            assert(!self.fs().contains(ino)) by {
                if self.fs().contains(ino) {
                    assert(pre.fs().contains(ino));
                    assert(ino <= pre.ino_ctr());
                }
            }
            // No child of the parent bears the new name: `find_child` found
            // none before, and the touch changed no names.
            assert forall|j: int|
                0 <= j < self.fs().children(parent).len() implies self.fs().item(
                #[trigger] self.fs().children(parent)[j],
            ).name@ != item.name@ by {
                lemma_children_linked(pre.fs(), parent, j);
                let cj = pre.fs().children(parent)[j];
                assert(self.fs().children(parent) == pre.fs().children(parent));
                if cj == parent {
                    assert(false);
                } else {
                    assert(unchanged_at(pre.fs(), self.fs(), cj));
                }
                if self.fs().item(cj).name@ == item.name@ {
                    assert(pre.fs().item(cj).name@ == name@);
                    assert(pre.fs().children(parent).contains(cj));
                    lemma_child_named_unique(pre.fs(), parent, name@, cj);
                    assert(pre.fs().has_child_named(parent, name@));
                    assert(false);
                }
            }
        }
        let res = self.tree_fs.push(parent, item);
        proof {
            assert(res is Ok);
            assert(self.fs().item(parent) == (Item {
                attr: (Attr { mtime: now, ctime: now, ..pre.fs().item(parent).attr }),
                ..pre.fs().item(parent)
            }));
            assert(attr == pre.created_attr(req, parent, mode, make_dir, inherit_sgid, now));
            assert(create_post(
                pre,
                *self,
                req,
                parent,
                name@,
                mode,
                make_dir,
                inherit_sgid,
                now,
                Ok(attr),
            ));
        }
        Ok(attr)
    }

    /// Creates a regular file or a directory, by the type nibble of the
    /// mode; any other kind is unsupported and reports `ENOSYS`.
    pub fn mknod(&mut self, req: Request, parent: u64, name: &String, mode: u32, now: TimeSpec) -> (r:
        Result<Attr, Errno>)
        requires
            old(self).wf(),
            old(self).ino_ctr() < u64::MAX,
        ensures
            final(self).wf(),
            final(self).fh_ctr() == old(self).fh_ctr(),
            (mode & S_IFMT != S_IFREG && mode & S_IFMT != S_IFDIR) ==> r == Err::<Attr, Errno>(
                Errno::ENOSYS,
            ) && *final(self) == *old(self),
            (mode & S_IFMT == S_IFREG || mode & S_IFMT == S_IFDIR) ==> create_post(
                *old(self),
                *final(self),
                req,
                parent,
                name@,
                mode,
                mode & S_IFMT == S_IFDIR,
                false,
                now,
                r,
            ),
            r is Err ==> *final(self) == *old(self),
    {
        let file_type = mode & S_IFMT;
        if file_type != S_IFREG && file_type != S_IFDIR {
            return Err(Errno::ENOSYS);
        }
        self.create_nod(req, parent, name, mode, file_type == S_IFDIR, false, now)
    }

    /// Creates a directory; a parent with SGID passes the bit on.
    pub fn mkdir(&mut self, req: Request, parent: u64, name: &String, mode: u32, now: TimeSpec) -> (r:
        Result<Attr, Errno>)
        requires
            old(self).wf(),
            old(self).ino_ctr() < u64::MAX,
        ensures
            final(self).wf(),
            final(self).fh_ctr() == old(self).fh_ctr(),
            create_post(*old(self), *final(self), req, parent, name@, mode, true, true, now, r),
            r is Err ==> *final(self) == *old(self),
    {
        self.create_nod(req, parent, name, mode, true, true, now)
    }

    /// Creates a regular file and opens it: the access-mode bits must be
    /// valid, then the shared create routine runs and a handle is drawn.
    pub fn create(
        &mut self,
        req: Request,
        parent: u64,
        name: &String,
        mode: u32,
        flags: i32,
        now: TimeSpec,
    ) -> (r: Result<(Attr, u64), Errno>)
        requires
            old(self).wf(),
            old(self).ino_ctr() < u64::MAX,
            old(self).fh_ctr() < u64::MAX,
        ensures
            final(self).wf(),
            (flags & O_ACCMODE != O_RDONLY && flags & O_ACCMODE != O_WRONLY && flags & O_ACCMODE
                != O_RDWR) ==> r == Err::<(Attr, u64), Errno>(Errno::EINVAL) && *final(self)
                == *old(self),
            (flags & O_ACCMODE == O_RDONLY || flags & O_ACCMODE == O_WRONLY || flags & O_ACCMODE
                == O_RDWR) ==> {
                match old(self).create_err(req, parent, name@) {
                    Some(e) => r == Err::<(Attr, u64), Errno>(e) && *final(self) == *old(self),
                    None => {
                        let a = old(self).created_attr(req, parent, mode, false, false, now);
                        &&& r == Ok::<(Attr, u64), Errno>((a, (old(self).fh_ctr() + 1) as u64))
                        &&& final(self).fh_ctr() == old(self).fh_ctr() + 1
                        &&& create_post(
                            *old(self),
                            *final(self),
                            req,
                            parent,
                            name@,
                            mode,
                            false,
                            false,
                            now,
                            Ok(a),
                        )
                    },
                }
            },
            r is Err ==> *final(self) == *old(self),
    {
        let accmode = flags & O_ACCMODE;
        if accmode != O_RDONLY && accmode != O_WRONLY && accmode != O_RDWR {
            return Err(Errno::EINVAL);
        }
        match self.create_nod(req, parent, name, mode, false, false, now) {
            Ok(attr) => {
                let fh = self.allocate_next_file_handle();
                Ok((attr, fh))
            },
            Err(e) => Err(e),
        }
    }

    /// Why a rename rejects: cross-directory renames are unsupported, the
    /// parent must live, the new name must be free, the old one present.
    pub open spec fn rename_err(
        self,
        parent: u64,
        name: Seq<char>,
        new_parent: u64,
        new_name: Seq<char>,
    ) -> Option<Errno> {
        if parent != new_parent {
            Some(Errno::ENOSYS)
        } else if !self.fs().contains(parent) {
            Some(Errno::ENOENT)
        } else if self.fs().has_child_named(parent, new_name) {
            Some(Errno::EEXIST)
        } else if !self.fs().has_child_named(parent, name) {
            Some(Errno::ENOENT)
        } else {
            None
        }
    }

    /// Renames a child within one directory; child and parent both get their
    /// mtime and ctime advanced.
    pub fn rename(
        &mut self,
        req: Request,
        parent: u64,
        name: &String,
        new_parent: u64,
        new_name: &String,
        now: TimeSpec,
    ) -> (r: Result<(), Errno>)
        requires
            old(self).wf(),
        ensures
            final(self).wf(),
            match old(self).rename_err(parent, name@, new_parent, new_name@) {
                Some(e) => r == Err::<(), Errno>(e) && *final(self) == *old(self),
                None => {
                    let c = old(self).fs().child_named(parent, name@);
                    &&& r is Ok
                    &&& final(self).fs().contains(c)
                    &&& final(self).fs().item(c).name@ == new_name@
                    &&& final(self).fs().item(c).attr == (Attr {
                        mtime: now,
                        ctime: now,
                        ..old(self).fs().item(c).attr
                    })
                    &&& final(self).fs().item(c).data == old(self).fs().item(c).data
                    &&& final(self).fs().item(c).is_dir == old(self).fs().item(c).is_dir
                    &&& final(self).fs().item(c).ino == old(self).fs().item(c).ino
                    &&& final(self).fs().item(parent) == (Item {
                        attr: (Attr { mtime: now, ctime: now, ..old(self).fs().item(parent).attr }),
                        ..old(self).fs().item(parent)
                    })
                    &&& final(self).fs().children(parent) == old(self).fs().children(parent)
                    &&& final(self).fs().parent(c) == Some(parent)
                    &&& final(self).fs().root_ino() == old(self).fs().root_ino()
                    &&& (forall|i: u64|
                        final(self).fs().contains(i) == old(self).fs().contains(i))
                    &&& (forall|i: u64|
                        old(self).fs().contains(i) && i != parent && i != c ==> unchanged_at(
                            old(self).fs(),
                            final(self).fs(),
                            i,
                        ))
                    &&& same_opts_counters(*old(self), *final(self))
                },
            },
    {
        if parent != new_parent {
            return Err(Errno::ENOSYS);
        }
        if self.tree_fs.get_item(parent).is_none() {
            return Err(Errno::ENOENT);
        }
        if self.tree_fs.find_child(parent, new_name).is_some() {
            return Err(Errno::EEXIST);
        }
        let c = match self.tree_fs.find_child(parent, name) {
            Some(c) => c,
            None => {
                return Err(Errno::ENOENT);
            },
        };
        let ghost pre = *self;
        proof {
            lemma_child_named_props(pre.fs(), parent, name@);
            lemma_item_coherent(pre.fs(), c);
            // The new name collides with no sibling: no child at all bears it.
            assert forall|j: int|
                0 <= j < pre.fs().children(parent).len() && pre.fs().children(parent)[j] != c
                    implies pre.fs().item(
                #[trigger] pre.fs().children(parent)[j],
            ).name@ != new_name@ by {
                let cj = pre.fs().children(parent)[j];
                if pre.fs().item(cj).name@ == new_name@ {
                    assert(pre.fs().children(parent).contains(cj));
                    lemma_child_named_unique(pre.fs(), parent, new_name@, cj);
                    assert(false);
                }
            }
        }
        self.tree_fs.set_name(c, new_name.clone());
        let ghost mid = *self;
        let ca = match self.tree_fs.get_item(c) {
            Some(it) => it.attr,
            None => {
                proof {
                    assert(false);
                }
                return Err(Errno::ENOENT);
            },
        };
        let ca2 = Attr { mtime: now, ctime: now, ..ca };
        self.tree_fs.set_attr(c, ca2);
        let pa = match self.tree_fs.get_item(parent) {
            Some(it) => it.attr,
            None => {
                proof {
                    assert(false);
                }
                return Err(Errno::ENOENT);
            },
        };
        proof {
            lemma_item_coherent(pre.fs(), parent);
            assert(unchanged_at(mid.fs(), self.fs(), parent));
        }
        let pa2 = Attr { mtime: now, ctime: now, ..pa };
        self.tree_fs.set_attr(parent, pa2);
        Ok(())
    }

    /// Why an unlink rejects: the parent must be a live directory holding the
    /// name; this engine unlinks regular files only; and under a sticky
    /// parent, a non-root caller must own the parent or the child.
    pub open spec fn unlink_err(self, req: Request, parent: u64, name: Seq<char>) -> Option<
        Errno,
    > {
        if !self.fs().contains(parent) || !self.fs().item(parent).is_dir {
            Some(Errno::ENOENT)
        } else if !self.fs().has_child_named(parent, name) {
            Some(Errno::ENOENT)
        } else if self.fs().item(self.fs().child_named(parent, name)).is_dir {
            Some(Errno::EPERM)
        } else if self.fs().item(parent).attr.perm & S_ISVTX != 0 && req.uid != 0 && req.uid
            != self.fs().item(parent).attr.uid && req.uid != self.fs().item(
            self.fs().child_named(parent, name),
        ).attr.uid {
            Some(Errno::EACCES)
        } else {
            None
        }
    }

    /// Removes a regular file from its directory and from the index; the
    /// parent's mtime and ctime advance.
    pub fn unlink(&mut self, req: Request, parent: u64, name: &String, now: TimeSpec) -> (r: Result<
        (),
        Errno,
    >)
        requires
            old(self).wf(),
        ensures
            final(self).wf(),
            match old(self).unlink_err(req, parent, name@) {
                Some(e) => r == Err::<(), Errno>(e) && *final(self) == *old(self),
                None => {
                    let c = old(self).fs().child_named(parent, name@);
                    &&& r is Ok
                    &&& !final(self).fs().contains(c)
                    &&& !final(self).fs().has_child_named(parent, name@)
                    &&& (exists|idx: int|
                        0 <= idx < old(self).fs().children(parent).len() && old(
                            self,
                        ).fs().children(parent)[idx] == c && final(self).fs().children(parent)
                            == old(self).fs().children(parent).remove(idx))
                    &&& final(self).fs().item(parent) == (Item {
                        attr: (Attr { mtime: now, ctime: now, ..old(self).fs().item(parent).attr }),
                        ..old(self).fs().item(parent)
                    })
                    &&& final(self).fs().root_ino() == old(self).fs().root_ino()
                    &&& (forall|i: u64|
                        final(self).fs().contains(i) <==> (old(self).fs().contains(i) && i != c))
                    &&& (forall|i: u64|
                        old(self).fs().contains(i) && i != parent && i != c ==> unchanged_at(
                            old(self).fs(),
                            final(self).fs(),
                            i,
                        ))
                    &&& same_opts_counters(*old(self), *final(self))
                },
            },
    {
        let (pa, p_is_dir) = match self.tree_fs.get_item(parent) {
            Some(it) => (it.attr, it.is_dir),
            None => {
                return Err(Errno::ENOENT);
            },
        };
        if !p_is_dir {
            return Err(Errno::ENOENT);
        }
        let c = match self.tree_fs.find_child(parent, name) {
            Some(c) => c,
            None => {
                return Err(Errno::ENOENT);
            },
        };
        let ghost pre = *self;
        proof {
            lemma_child_named_props(pre.fs(), parent, name@);
        }
        let ca = match self.tree_fs.get_item(c) {
            Some(it) => (it.attr, it.is_dir),
            None => {
                proof {
                    assert(false);
                }
                return Err(Errno::ENOENT);
            },
        };
        if ca.1 {
            return Err(Errno::EPERM);
        }
        if pa.perm & S_ISVTX != 0 && req.uid != 0 && req.uid != pa.uid && req.uid != ca.0.uid {
            return Err(Errno::EACCES);
        }
        proof {
            lemma_item_coherent(pre.fs(), parent);
            lemma_file_no_children(pre.fs(), c);
        }
        let pa2 = Attr { mtime: now, ctime: now, ..pa };
        self.tree_fs.set_attr(parent, pa2);
        let idx = self.tree_fs.remove_child(parent, c);
        proof {
            lemma_unlinked_name_gone(pre.fs(), self.fs(), parent, name@, c, idx as int);
        }
        Ok(())
    }

    /// Why an rmdir rejects: missing parent, no write permission on it, the
    /// name absent, a regular file as target (`EACCES`), a non-empty target
    /// (`ENOTEMPTY`), or the sticky rule.
    pub open spec fn rmdir_err(self, req: Request, parent: u64, name: Seq<char>) -> Option<Errno> {
        if !self.fs().contains(parent) {
            Some(Errno::ENOENT)
        } else if !spec_check_access(
            self.fs().item(parent).attr.uid,
            self.fs().item(parent).attr.gid,
            self.fs().item(parent).attr.perm,
            req.uid,
            req.gid,
            W_OK,
        ) {
            Some(Errno::EACCES)
        } else if !self.fs().has_child_named(parent, name) {
            Some(Errno::ENOENT)
        } else if !self.fs().item(self.fs().child_named(parent, name)).is_dir {
            Some(Errno::EACCES)
        } else if self.fs().children(self.fs().child_named(parent, name)).len() != 0 {
            Some(Errno::ENOTEMPTY)
        } else if self.fs().item(parent).attr.perm & S_ISVTX != 0 && req.uid != 0 && req.uid
            != self.fs().item(parent).attr.uid && req.uid != self.fs().item(
            self.fs().child_named(parent, name),
        ).attr.uid {
            Some(Errno::EACCES)
        } else {
            None
        }
    }

    /// Removes an empty directory; needs write on the parent, honours the
    /// sticky rule, and advances the parent's mtime and ctime.
    pub fn rmdir(&mut self, req: Request, parent: u64, name: &String, now: TimeSpec) -> (r: Result<
        (),
        Errno,
    >)
        requires
            old(self).wf(),
        ensures
            final(self).wf(),
            match old(self).rmdir_err(req, parent, name@) {
                Some(e) => r == Err::<(), Errno>(e) && *final(self) == *old(self),
                None => {
                    let c = old(self).fs().child_named(parent, name@);
                    &&& r is Ok
                    &&& !final(self).fs().contains(c)
                    &&& !final(self).fs().has_child_named(parent, name@)
                    &&& (exists|idx: int|
                        0 <= idx < old(self).fs().children(parent).len() && old(
                            self,
                        ).fs().children(parent)[idx] == c && final(self).fs().children(parent)
                            == old(self).fs().children(parent).remove(idx))
                    &&& final(self).fs().item(parent) == (Item {
                        attr: (Attr { mtime: now, ctime: now, ..old(self).fs().item(parent).attr }),
                        ..old(self).fs().item(parent)
                    })
                    &&& final(self).fs().root_ino() == old(self).fs().root_ino()
                    &&& (forall|i: u64|
                        final(self).fs().contains(i) <==> (old(self).fs().contains(i) && i != c))
                    &&& (forall|i: u64|
                        old(self).fs().contains(i) && i != parent && i != c ==> unchanged_at(
                            old(self).fs(),
                            final(self).fs(),
                            i,
                        ))
                    &&& same_opts_counters(*old(self), *final(self))
                },
            },
    {
        let pa = match self.tree_fs.get_item(parent) {
            Some(it) => it.attr,
            None => {
                return Err(Errno::ENOENT);
            },
        };
        if !check_access(pa.uid, pa.gid, pa.perm, req.uid, req.gid, W_OK) {
            return Err(Errno::EACCES);
        }
        let c = match self.tree_fs.find_child(parent, name) {
            Some(c) => c,
            None => {
                return Err(Errno::ENOENT);
            },
        };
        let ghost pre = *self;
        proof {
            lemma_child_named_props(pre.fs(), parent, name@);
        }
        let ca = match self.tree_fs.get_item(c) {
            Some(it) => (it.attr, it.is_dir),
            None => {
                proof {
                    assert(false);
                }
                return Err(Errno::ENOENT);
            },
        };
        if !ca.1 {
            return Err(Errno::EACCES);
        }
        if self.tree_fs.child_count(c) != 0 {
            return Err(Errno::ENOTEMPTY);
        }
        if pa.perm & S_ISVTX != 0 && req.uid != 0 && req.uid != pa.uid && req.uid != ca.0.uid {
            return Err(Errno::EACCES);
        }
        proof {
            lemma_item_coherent(pre.fs(), parent);
        }
        let pa2 = Attr { mtime: now, ctime: now, ..pa };
        self.tree_fs.set_attr(parent, pa2);
        let idx = self.tree_fs.remove_child(parent, c);
        proof {
            lemma_unlinked_name_gone(pre.fs(), self.fs(), parent, name@, c, idx as int);
        }
        Ok(())
    }
}

/// What chmod does: only root or the owner may change the mode; a caller in
/// neither the file's group nor its own matching gid loses the SGID bit;
/// ctime advances.
pub open spec fn chmod_step(a: Attr, req: Request, groups: Seq<u32>, mode: u32, now: TimeSpec) -> Result<
    Attr,
    Errno,
> {
    if req.uid != 0 && req.uid != a.uid {
        Err(Errno::EPERM)
    } else {
        let p = if req.uid != 0 && req.gid != a.gid && !groups.contains(a.gid) {
            ((mode & 0o7777) as u16) & !S_ISGID
        } else {
            (mode & 0o7777) as u16
        };
        Ok(Attr { perm: p, ctime: now, ..a })
    }
}

/// What chown does: non-root may pick only a group it is in, may "change"
/// the uid only to its current value, and must own the file to change the
/// group. On an executable file SUID/SGID fall per the clearing rule; a new
/// uid drops SUID, a new gid drops SGID for non-root; ctime advances.
pub open spec fn chown_step(
    a: Attr,
    req: Request,
    groups: Seq<u32>,
    uid: Option<u32>,
    gid: Option<u32>,
    now: TimeSpec,
) -> Result<Attr, Errno> {
    if gid is Some && req.uid != 0 && !groups.contains(gid->Some_0) {
        Err(Errno::EPERM)
    } else if uid is Some && req.uid != 0 && !(uid->Some_0 == a.uid && req.uid == a.uid) {
        Err(Errno::EPERM)
    } else if gid is Some && req.uid != 0 && req.uid != a.uid {
        Err(Errno::EPERM)
    } else {
        let a1 = if a.perm & (S_IXUSR | S_IXGRP | S_IXOTH) != 0 {
            Attr { perm: spec_clear_suid_sgid(a.perm), ..a }
        } else {
            a
        };
        let a2 = if uid is Some {
            Attr { uid: uid->Some_0, perm: a1.perm & !S_ISUID, ..a1 }
        } else {
            a1
        };
        let a3 = if gid is Some {
            Attr {
                gid: gid->Some_0,
                perm: if req.uid != 0 {
                    a2.perm & !S_ISGID
                } else {
                    a2.perm
                },
                ..a2
            }
        } else {
            a2
        };
        Ok(Attr { ctime: now, ..a3 })
    }
}

/// Content after a truncate: cut to `size`, or zero-extended up to it.
pub open spec fn trunc_bytes(data: Seq<u8>, size: u64) -> Seq<u8> {
    if size <= data.len() {
        data.subrange(0, size as int)
    } else {
        data + Seq::new((size - data.len()) as nat, |i: int| 0u8)
    }
}

/// Attributes after a truncate: the new size and block count, mtime and
/// ctime advanced, SUID/SGID cleared per the rule.
pub open spec fn trunc_attr(a: Attr, size: u64, now: TimeSpec) -> Attr {
    Attr {
        size,
        blocks: blocks_of(size) as u64,
        mtime: now,
        ctime: now,
        perm: spec_clear_suid_sgid(a.perm),
        ..a
    }
}

/// What setting one time does: a non-owner non-root caller may not set a
/// specific time, and needs write permission to set "now"; ctime advances.
pub open spec fn utime_step(a: Attr, req: Request, t: TimeOrNow, now: TimeSpec, is_mtime: bool) -> Result<
    Attr,
    Errno,
> {
    if a.uid != req.uid && req.uid != 0 && t != TimeOrNow::Now {
        Err(Errno::EPERM)
    } else if a.uid != req.uid && !spec_check_access(a.uid, a.gid, a.perm, req.uid, req.gid, W_OK) {
        Err(Errno::EACCES)
    } else {
        let when = match t {
            TimeOrNow::SpecificTime(ts) => ts,
            TimeOrNow::Now => now,
        };
        Ok(
            if is_mtime {
                Attr { mtime: when, ctime: now, ..a }
            } else {
                Attr { atime: when, ctime: now, ..a }
            },
        )
    }
}

/// The whole of one `setattr`, applied linearly: mode, then uid/gid, then
/// size, then atime, then mtime. A rejected step stops the chain but leaves
/// the earlier steps applied; the result carries the content, the attributes
/// and the error, if any. Truncating a directory is refused.
pub open spec fn setattr_spec(
    data: Seq<u8>,
    a0: Attr,
    is_dir: bool,
    req: Request,
    groups: Seq<u32>,
    mode: Option<u32>,
    uid: Option<u32>,
    gid: Option<u32>,
    size: Option<u64>,
    atime: Option<TimeOrNow>,
    mtime: Option<TimeOrNow>,
    now: TimeSpec,
) -> (Seq<u8>, Attr, Option<Errno>) {
    let r1 = match mode {
        Some(m) => chmod_step(a0, req, groups, m, now),
        None => Ok(a0),
    };
    match r1 {
        Err(e) => (data, a0, Some(e)),
        Ok(a1) => {
            let r2 = if uid is Some || gid is Some {
                chown_step(a1, req, groups, uid, gid, now)
            } else {
                Ok(a1)
            };
            match r2 {
                Err(e) => (data, a1, Some(e)),
                Ok(a2) => {
                    if size is Some && is_dir {
                        (data, a2, Some(Errno::ENOENT))
                    } else {
                        let d3 = match size {
                            Some(s) => trunc_bytes(data, s),
                            None => data,
                        };
                        let a3 = match size {
                            Some(s) => trunc_attr(a2, s, now),
                            None => a2,
                        };
                        let r4 = match atime {
                            Some(t) => utime_step(a3, req, t, now, false),
                            None => Ok(a3),
                        };
                        match r4 {
                            Err(e) => (d3, a3, Some(e)),
                            Ok(a4) => {
                                let r5 = match mtime {
                                    Some(t) => utime_step(a4, req, t, now, true),
                                    None => Ok(a4),
                                };
                                match r5 {
                                    Err(e) => (d3, a4, Some(e)),
                                    Ok(a5) => (d3, a5, None),
                                }
                            },
                        }
                    }
                },
            }
        },
    }
}

/// Builds truncated content executably.
fn trunc_exec(base: &Vec<u8>, size: u64) -> (r: Vec<u8>)
    requires
        size <= usize::MAX,
    ensures
        r@ == trunc_bytes(base@, size),
{
    let s = size as usize;
    let n = if s <= base.len() {
        s
    } else {
        base.len()
    };
    let mut out: Vec<u8> = Vec::new();
    let mut i: usize = 0;
    while i < n
        invariant
            i <= n,
            n <= base@.len(),
            n <= s,
            out@.len() == i,
            forall|j: int| 0 <= j < i ==> out@[j] == base@[j],
        decreases n - i,
    {
        out.push(base[i]);
        i = i + 1;
    }
    while out.len() < s
        invariant
            n <= out@.len() <= s,
            forall|j: int| 0 <= j < n ==> out@[j] == base@[j],
            forall|j: int| n <= j < out@.len() ==> out@[j] == 0u8,
        decreases s - out@.len(),
    {
        out.push(0);
    }
    proof {
        assert(out@ =~= trunc_bytes(base@, size));
    }
    out
}

impl MemFs {
    /// Applies the supplied attribute changes in order — mode, uid/gid,
    /// size, atime, mtime — replying with the final attributes, or with the
    /// first step's error; steps already applied remain applied.
    #[verifier::rlimit(100)]
    #[verifier::spinoff_prover]
    pub fn setattr(
        &mut self,
        req: Request,
        groups: &Vec<u32>,
        ino: u64,
        mode: Option<u32>,
        uid: Option<u32>,
        gid: Option<u32>,
        size: Option<u64>,
        atime: Option<TimeOrNow>,
        mtime: Option<TimeOrNow>,
        now: TimeSpec,
    ) -> (r: Result<Attr, Errno>)
        requires
            old(self).wf(),
            size is Some ==> size->Some_0 <= usize::MAX,
        ensures
            final(self).wf(),
            !old(self).fs().contains(ino) ==> r == Err::<Attr, Errno>(Errno::ENOENT)
                && *final(self) == *old(self),
            old(self).fs().contains(ino) ==> {
                let it = old(self).fs().item(ino);
                let out = setattr_spec(
                    it.data@,
                    it.attr,
                    it.is_dir,
                    req,
                    groups@,
                    mode,
                    uid,
                    gid,
                    size,
                    atime,
                    mtime,
                    now,
                );
                &&& final(self).fs().contains(ino)
                &&& final(self).fs().item(ino).data@ == out.0
                &&& final(self).fs().item(ino).attr == out.1
                &&& final(self).fs().item(ino).name == it.name
                &&& final(self).fs().item(ino).is_dir == it.is_dir
                &&& final(self).fs().item(ino).ino == it.ino
                &&& r == (match out.2 {
                    Some(err) => Err::<Attr, Errno>(err),
                    None => Ok::<Attr, Errno>(out.1),
                })
                &&& tree_frame_except(*old(self), *final(self), ino)
                &&& same_opts_counters(*old(self), *final(self))
            },
    {
        let (a0, is_dir) = match self.tree_fs.get_item(ino) {
            Some(it) => (it.attr, it.is_dir),
            None => {
                return Err(Errno::ENOENT);
            },
        };
        let ghost pre = *self;
        proof {
            lemma_item_coherent(pre.fs(), ino);
        }
        let mut a = a0;
        // chmod
        if let Some(m) = mode {
            if req.uid != 0 && req.uid != a.uid {
                return Err(Errno::EPERM);
            }
            let p = if req.uid != 0 && req.gid != a.gid && !contains_u32(groups, a.gid) {
                ((m & 0o7777) as u16) & !S_ISGID
            } else {
                (m & 0o7777) as u16
            };
            proof {
                assert(((m & 0o7777) as u16) & 0o7777 == ((m & 0o7777) as u16) && (((m
                    & 0o7777) as u16) & !S_ISGID) & 0o7777 == (((m & 0o7777) as u16) & !S_ISGID))
                    by (bit_vector);
            }
            a = Attr { perm: p, ctime: now, ..a };
        }
        // chown
        if uid.is_some() || gid.is_some() {
            if let Some(g) = gid {
                if req.uid != 0 && !contains_u32(groups, g) {
                    self.tree_fs.set_attr(ino, a);
                    return Err(Errno::EPERM);
                }
            }
            if let Some(u) = uid {
                if req.uid != 0 && !(u == a.uid && req.uid == a.uid) {
                    self.tree_fs.set_attr(ino, a);
                    return Err(Errno::EPERM);
                }
            }
            if gid.is_some() && req.uid != 0 && req.uid != a.uid {
                self.tree_fs.set_attr(ino, a);
                return Err(Errno::EPERM);
            }
            if a.perm & (S_IXUSR | S_IXGRP | S_IXOTH) != 0 {
                let mut t = a;
                crate::perm::clear_suid_sgid(&mut t);
                proof {
                    crate::perm::lemma_clear_suid_sgid_masked(a.perm);
                }
                a = t;
            }
            if let Some(u) = uid {
                proof {
                    let pp = a.perm;
                    assert((pp & !S_ISUID) & 0o7777 == (pp & !S_ISUID)) by (bit_vector)
                        requires
                            pp & 0o7777 == pp,
                    ;
                }
                a = Attr { uid: u, perm: a.perm & !S_ISUID, ..a };
            }
            if let Some(g) = gid {
                proof {
                    let pp = a.perm;
                    assert((pp & !S_ISGID) & 0o7777 == (pp & !S_ISGID)) by (bit_vector)
                        requires
                            pp & 0o7777 == pp,
                    ;
                }
                a = Attr {
                    gid: g,
                    perm: if req.uid != 0 {
                        a.perm & !S_ISGID
                    } else {
                        a.perm
                    },
                    ..a
                };
            }
            a = Attr { ctime: now, ..a };
        }
        // size
        if let Some(s) = size {
            if is_dir {
                self.tree_fs.set_attr(ino, a);
                return Err(Errno::ENOENT);
            }
            let newd = trunc_exec(&match self.tree_fs.get_item(ino) {
                Some(it) => it,
                None => {
                    proof {
                        assert(false);
                    }
                    return Err(Errno::ENOENT);
                },
            }.data, s);
            self.tree_fs.set_content(ino, newd);
            let mut t = a;
            crate::perm::clear_suid_sgid(&mut t);
            proof {
                crate::perm::lemma_clear_suid_sgid_masked(a.perm);
            }
            let blocks = blocks_for_size(s);
            a = Attr { size: s, blocks, mtime: now, ctime: now, perm: t.perm, ..a };
            self.tree_fs.set_attr(ino, a);
        }
        // atime
        if let Some(t) = atime {
            if a.uid != req.uid && req.uid != 0 && t != TimeOrNow::Now {
                self.tree_fs.set_attr(ino, a);
                return Err(Errno::EPERM);
            }
            if a.uid != req.uid && !check_access(a.uid, a.gid, a.perm, req.uid, req.gid, W_OK) {
                self.tree_fs.set_attr(ino, a);
                return Err(Errno::EACCES);
            }
            let when = match t {
                TimeOrNow::SpecificTime(ts) => ts,
                TimeOrNow::Now => now,
            };
            a = Attr { atime: when, ctime: now, ..a };
        }
        // mtime
        if let Some(t) = mtime {
            if a.uid != req.uid && req.uid != 0 && t != TimeOrNow::Now {
                self.tree_fs.set_attr(ino, a);
                return Err(Errno::EPERM);
            }
            if a.uid != req.uid && !check_access(a.uid, a.gid, a.perm, req.uid, req.gid, W_OK) {
                self.tree_fs.set_attr(ino, a);
                return Err(Errno::EACCES);
            }
            let when = match t {
                TimeOrNow::SpecificTime(ts) => ts,
                TimeOrNow::Now => now,
            };
            a = Attr { mtime: when, ctime: now, ..a };
        }
        self.tree_fs.set_attr(ino, a);
        Ok(a)
    }
}

impl MemFs {
    /// Both ends of a copy must be live regular files.
    pub open spec fn copy_range_err(self, src: u64, dst: u64) -> Option<Errno> {
        if !self.fs().contains(src) || self.fs().item(src).is_dir {
            Some(Errno::ENOENT)
        } else if !self.fs().contains(dst) || self.fs().item(dst).is_dir {
            Some(Errno::ENOENT)
        } else {
            None
        }
    }

    /// Copies `min(size, src_len - src_off)` bytes from the source into the
    /// destination at `dst_off`; the destination's size follows and its
    /// mtime and ctime advance. Returns the bytes actually transferred.
    pub fn copy_file_range(
        &mut self,
        src_ino: u64,
        src_off: u64,
        dst_ino: u64,
        dst_off: u64,
        size: u64,
        now: TimeSpec,
    ) -> (r: Result<u32, Errno>)
        requires
            old(self).wf(),
            dst_off + size <= usize::MAX,
            size <= u32::MAX,
        ensures
            final(self).wf(),
            match old(self).copy_range_err(src_ino, dst_ino) {
                Some(e) => r == Err::<u32, Errno>(e) && *final(self) == *old(self),
                None => {
                    let copied = read_bytes(old(self).fs().item(src_ino).data@, src_off, size as u32);
                    let d2 = splice_bytes(old(self).fs().item(dst_ino).data@, dst_off, copied);
                    &&& r == Ok::<u32, Errno>(copied.len() as u32)
                    &&& final(self).fs().contains(dst_ino)
                    &&& final(self).fs().item(dst_ino).data@ == d2
                    &&& final(self).fs().item(dst_ino).attr == (Attr {
                        size: d2.len() as u64,
                        blocks: blocks_of(d2.len() as u64) as u64,
                        mtime: now,
                        ctime: now,
                        ..old(self).fs().item(dst_ino).attr
                    })
                    &&& final(self).fs().item(dst_ino).name == old(self).fs().item(dst_ino).name
                    &&& final(self).fs().item(dst_ino).is_dir == old(self).fs().item(
                        dst_ino,
                    ).is_dir
                    &&& final(self).fs().item(dst_ino).ino == old(self).fs().item(dst_ino).ino
                    &&& tree_frame_except(*old(self), *final(self), dst_ino)
                    &&& same_opts_counters(*old(self), *final(self))
                },
            },
    {
        match self.tree_fs.get_item(src_ino) {
            Some(it) => {
                if it.is_dir {
                    return Err(Errno::ENOENT);
                }
            },
            None => {
                return Err(Errno::ENOENT);
            },
        };
        let (da, d_is_dir) = match self.tree_fs.get_item(dst_ino) {
            Some(it) => (it.attr, it.is_dir),
            None => {
                return Err(Errno::ENOENT);
            },
        };
        if d_is_dir {
            return Err(Errno::ENOENT);
        }
        let data = match self.read(src_ino, src_off, size as u32) {
            Ok(v) => v,
            Err(_) => {
                proof {
                    assert(false);
                }
                return Err(Errno::ENOENT);
            },
        };
        let ghost pre = *self;
        proof {
            lemma_item_coherent(pre.fs(), dst_ino);
        }
        let written = data.len();
        let dst_item = match self.tree_fs.get_item(dst_ino) {
            Some(it) => it,
            None => {
                proof {
                    assert(false);
                }
                return Err(Errno::ENOENT);
            },
        };
        let newd = spliced(&dst_item.data, dst_off as usize, &data);
        let newlen = newd.len();
        self.tree_fs.set_content(dst_ino, newd);
        let blocks = blocks_for_size(newlen as u64);
        let a2 = Attr { size: newlen as u64, blocks, mtime: now, ctime: now, ..da };
        self.tree_fs.set_attr(dst_ino, a2);
        Ok(written as u32)
    }

    /// 1 when the directory is the root (no ".." entry), else 2.
    pub open spec fn dir_base(self, ino: u64) -> int {
        if self.fs().parent(ino) is None {
            1
        } else {
            2
        }
    }

    /// How many entries a full listing of the directory holds: ".", ".."
    /// except at the root, then the children.
    pub open spec fn dir_entry_count(self, ino: u64) -> int {
        self.dir_base(ino) + self.fs().children(ino).len()
    }

    pub open spec fn entry_ino_at(self, ino: u64, k: int) -> u64 {
        if k == 0 {
            ino
        } else if k == 1 && self.dir_base(ino) == 2 {
            self.fs().parent(ino)->Some_0
        } else {
            self.fs().children(ino)[k - self.dir_base(ino)]
        }
    }

    pub open spec fn entry_is_dir_at(self, ino: u64, k: int) -> bool {
        if k < self.dir_base(ino) {
            true
        } else {
            self.fs().item(self.fs().children(ino)[k - self.dir_base(ino)]).is_dir
        }
    }

    pub open spec fn entry_name_at(self, ino: u64, k: int) -> Seq<char> {
        if k == 0 {
            "."@
        } else if k == 1 && self.dir_base(ino) == 2 {
            ".."@
        } else {
            self.fs().item(self.fs().children(ino)[k - self.dir_base(ino)]).name@
        }
    }

    /// Lists a directory from `offset`: ".", ".." except at the root, then
    /// the children in insertion order, each entry with its ino, kind and
    /// name.
    pub fn readdir(&self, ino: u64, offset: u64) -> (r: Result<Vec<DirEntry>, Errno>)
        requires
            self.wf(),
        ensures
            (r is Ok) == (self.fs().contains(ino) && self.fs().item(ino).is_dir),
            r is Err ==> r == Err::<Vec<DirEntry>, Errno>(Errno::ENOENT),
            r is Ok ==> {
                let v = r->Ok_0;
                let total = self.dir_entry_count(ino);
                &&& v@.len() == if offset <= total {
                    total - offset
                } else {
                    0
                }
                &&& (forall|j: int|
                    #![trigger v@[j]]
                    0 <= j < v@.len() ==> {
                        &&& v@[j].ino == self.entry_ino_at(ino, offset + j)
                        &&& (v@[j].kind == FileKind::Directory) == self.entry_is_dir_at(
                            ino,
                            offset + j,
                        )
                        &&& (v@[j].kind == FileKind::Directory || v@[j].kind
                            == FileKind::RegularFile)
                        &&& v@[j].name@ == self.entry_name_at(ino, offset + j)
                    })
            },
    {
        match self.tree_fs.get_item(ino) {
            Some(it) => {
                if !it.is_dir {
                    return Err(Errno::ENOENT);
                }
            },
            None => {
                return Err(Errno::ENOENT);
            },
        };
        let mut out: Vec<DirEntry> = Vec::new();
        let parent_opt = self.tree_fs.get_parent(ino);
        let base: u64 = if parent_opt.is_some() {
            2
        } else {
            1
        };
        if offset == 0 {
            out.push(DirEntry { ino, kind: FileKind::Directory, name: ".".to_owned() });
        }
        if offset <= 1 && base == 2 {
            match parent_opt {
                Some(p) => {
                    out.push(DirEntry { ino: p, kind: FileKind::Directory, name: "..".to_owned() });
                },
                None => {},
            }
        }
        let cnt = self.tree_fs.child_count(ino);
        let start: usize = if offset > base {
            let diff = offset - base;
            if diff >= cnt as u64 {
                cnt
            } else {
                diff as usize
            }
        } else {
            0
        };
        proof {
            assert(out@.len() == if offset <= base {
                base - offset
            } else {
                0int
            });
        }
        let mut i: usize = start;
        while i < cnt
            invariant
                self.wf(),
                self.fs().contains(ino),
                self.fs().item(ino).is_dir,
                base == self.dir_base(ino),
                parent_opt == self.fs().parent(ino),
                cnt == self.fs().children(ino).len(),
                start <= i <= cnt,
                offset > base ==> start == if offset - base >= cnt {
                    cnt as int
                } else {
                    offset - base
                },
                offset <= base ==> start == 0,
                out@.len() == (if offset <= base {
                    base - offset
                } else {
                    0int
                }) + (i - start),
                forall|j: int|
                    #![trigger out@[j]]
                    0 <= j < out@.len() ==> {
                        &&& out@[j].ino == self.entry_ino_at(ino, offset + j)
                        &&& (out@[j].kind == FileKind::Directory) == self.entry_is_dir_at(
                            ino,
                            offset + j,
                        )
                        &&& (out@[j].kind == FileKind::Directory || out@[j].kind
                            == FileKind::RegularFile)
                        &&& out@[j].name@ == self.entry_name_at(ino, offset + j)
                    },
            decreases cnt - i,
        {
            let child = self.tree_fs.child_at(ino, i);
            let kind = if child.is_dir {
                FileKind::Directory
            } else {
                FileKind::RegularFile
            };
            out.push(DirEntry { ino: child.ino, kind, name: child.name.clone() });
            i = i + 1;
        }
        Ok(out)
    }
}

/// After detaching the named child, no child of the parent bears the name
/// any more.
proof fn lemma_unlinked_name_gone(
    pre: TreeFs,
    post: TreeFs,
    parent: u64,
    name: Seq<char>,
    c: u64,
    idx: int,
)
    requires
        pre.wf(),
        post.wf(),
        pre.contains(parent),
        pre.has_child_named(parent, name),
        c == pre.child_named(parent, name),
        0 <= idx < pre.children(parent).len(),
        pre.children(parent)[idx] == c,
        post.children(parent) == pre.children(parent).remove(idx),
        post.contains(parent),
        forall|i: u64|
            pre.contains(i) && i != parent && i != c ==> unchanged_at(pre, post, i),
        post.item(parent).name@ == pre.item(parent).name@,
    ensures
        !post.has_child_named(parent, name),
{
    lemma_child_named_props(pre, parent, name);
    if post.has_child_named(parent, name) {
        let c2 = choose|c2: u64|
            #[trigger] post.children(parent).contains(c2) && post.item(c2).name@ == name;
        let j = choose|j: int|
            0 <= j < post.children(parent).len() && post.children(parent)[j] == c2;
        let j0 = if j < idx {
            j
        } else {
            j + 1
        };
        assert(pre.children(parent)[j0] == c2);
        assert(pre.children(parent).contains(c2));
        lemma_children_linked(pre, parent, j0);
        assert(c2 != parent);
        if j0 < idx {
            lemma_sibling_names_unique(pre, parent, j0, idx);
        } else {
            lemma_sibling_names_unique(pre, parent, idx, j0);
        }
        assert(c2 != c);
        assert(unchanged_at(pre, post, c2));
        assert(pre.item(c2).name@ == name);
        lemma_child_named_unique(pre, parent, name, c2);
        assert(false);
    }
}

} // verus!
