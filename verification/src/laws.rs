//! Round-trip laws of the engine, proved from the operations' contracts.

use vstd::prelude::*;
use crate::attr::{Attr, TimeSpec};
use crate::perm::{spec_check_access, X_OK};
use crate::mem_fs::{MemFs, Request, Errno, read_bytes, splice_bytes, create_post};
use crate::tree_fs::{lemma_children_linked, lemma_child_named_unique};

verus! {

/// Writing `d` at offset 0 and then reading `|d|` bytes from offset 0 yields
/// `d` again, whatever the content was before.
pub proof fn lemma_write_read_roundtrip(content: Seq<u8>, d: Seq<u8>)
    requires
        d.len() <= u32::MAX,
    ensures
        read_bytes(splice_bytes(content, 0, d), 0, d.len() as u32) == d,
{
    let w = splice_bytes(content, 0, d);
    assert(w.len() >= d.len());
    if d.len() == 0 {
        assert(read_bytes(w, 0, 0) =~= d);
    } else {
        assert(read_bytes(w, 0, d.len() as u32) =~= d);
    }
}

/// The same round trip at the engine level: a state whose file content is
/// what a successful `write(ino, 0, d)` leaves behind answers
/// `read(ino, 0, |d|)` with exactly `d`.
pub proof fn lemma_engine_write_then_read(pre: MemFs, post: MemFs, ino: u64, d: Seq<u8>)
    requires
        pre.fs().contains(ino),
        !pre.fs().item(ino).is_dir,
        post.fs().contains(ino),
        post.fs().item(ino).is_dir == pre.fs().item(ino).is_dir,
        post.fs().item(ino).data@ == splice_bytes(pre.fs().item(ino).data@, 0, d),
        d.len() <= u32::MAX,
    ensures
        post.read_spec(ino, 0, d.len() as u32) == Ok::<Seq<u8>, Errno>(d),
{
    lemma_write_read_roundtrip(pre.fs().item(ino).data@, d);
}

/// Creating a child under a directory and then removing that child returns
/// the directory to its prior child list. The hypotheses are exactly what
/// the create routine and the remover guarantee on success: the child list
/// gained the fresh ino at the end, and the later call removed the slot that
/// held the named child. (That mtime and ctime advance to the remover's
/// instant stands directly in `unlink`'s and `rmdir`'s postconditions.)
pub proof fn lemma_mkdir_rmdir_restores_children(
    s0: MemFs,
    s1: MemFs,
    s2: MemFs,
    req: Request,
    parent: u64,
    name: Seq<char>,
    mode: u32,
    make_dir: bool,
    inherit_sgid: bool,
    now1: TimeSpec,
    idx: int,
)
    requires
        s0.wf(),
        s1.wf(),
        s0.ino_ctr() < u64::MAX,
        s0.create_err(req, parent, name) is None,
        create_post(
            s0,
            s1,
            req,
            parent,
            name,
            mode,
            make_dir,
            inherit_sgid,
            now1,
            Ok(s0.created_attr(req, parent, mode, make_dir, inherit_sgid, now1)),
        ),
        0 <= idx < s1.fs().children(parent).len(),
        s1.fs().children(parent)[idx] == s1.fs().child_named(parent, name),
        s2.fs().children(parent) == s1.fs().children(parent).remove(idx),
    ensures
        s2.fs().children(parent) == s0.fs().children(parent),
{
    let ino = (s0.ino_ctr() + 1) as u64;
    let kids0 = s0.fs().children(parent);
    let kids1 = s1.fs().children(parent);
    assert(kids1 == kids0.push(ino));
    // The fresh ino names the new child: it hangs at the end and bears `name`.
    assert(kids1[kids0.len() as int] == ino);
    assert(kids1.contains(ino));
    assert(s1.fs().item(ino).name@ == name);
    lemma_child_named_unique(s1.fs(), parent, name, ino);
    assert(kids1[idx] == ino);
    // No prior child is the fresh ino: each was live before, so its ino is
    // at most the old counter.
    assert forall|j: int| 0 <= j < kids0.len() implies kids0[j] != ino by {
        lemma_children_linked(s0.fs(), parent, j);
        assert(s0.fs().contains(kids0[j]));
        assert(1 <= kids0[j] <= s0.ino_ctr());
        assert(ino == s0.ino_ctr() + 1);
    }
    assert(idx == kids0.len());
    assert(kids1.remove(idx) =~= kids0);
}

/// After the named child is gone — which is what a successful `unlink`
/// guarantees — looking the name up reports `ENOENT`, provided the caller
/// still has execute on the parent.
pub proof fn lemma_create_unlink_lookup_enoent(s: MemFs, req: Request, parent: u64, name: Seq<char>)
    requires
        s.fs().contains(parent),
        !s.fs().has_child_named(parent, name),
        spec_check_access(
            s.fs().item(parent).attr.uid,
            s.fs().item(parent).attr.gid,
            s.fs().item(parent).attr.perm,
            req.uid,
            req.gid,
            X_OK,
        ),
    ensures
        s.lookup_spec(req, parent, name) == Err::<Attr, Errno>(Errno::ENOENT),
{
}

} // verus!
