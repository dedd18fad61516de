//! The node store: owns every item, keyed by inode in the sole lookup index,
//! with the tree giving each directory its ordered child list. The store keeps
//! the structural invariants — index consistency, parent/child coherence,
//! sibling-name uniqueness — across every mutation.

use vstd::prelude::*;
use std::collections::HashMap;
use crate::attr::{Attr, FileKind, attr_wf, blocks_of, BLOCK_SIZE};
use crate::tree::{Tree, TreeNode};

verus! {

broadcast use vstd::std_specs::hash::group_hash_axioms;

/// A filesystem entity: metadata plus, for regular files, byte content.
pub struct Item {
    pub ino: u64,
    pub name: String,
    pub is_dir: bool,
    pub attr: Attr,
    pub data: Vec<u8>,
}

impl Item {
    /// A fresh item with empty content.
    pub fn new(ino: u64, name: String, is_dir: bool, attr: Attr) -> (r: Item)
        ensures
            r == (Item { ino, name, is_dir, attr, data: r.data }),
            r.data@ == Seq::<u8>::empty(),
    {
        Item { ino, name, is_dir, attr, data: Vec::new() }
    }
}

/// An item is internally coherent: its attribute record repeats its ino and
/// matches its shape — directories carry the fixed stat size and no content,
/// regular files report exactly their content length.
pub open spec fn item_wf(it: Item) -> bool {
    &&& it.attr.ino == it.ino
    &&& attr_wf(it.attr)
    &&& (it.is_dir ==> it.attr.kind == FileKind::Directory && it.attr.size == BLOCK_SIZE
        && it.data@.len() == 0)
    &&& (!it.is_dir ==> it.attr.kind == FileKind::RegularFile && it.attr.size == it.data@.len())
}

/// The one failure the store itself reports: a structural operation asked a
/// regular file to act as a directory.
#[derive(Clone, Copy, Debug, PartialEq, Eq, Structural)]
pub enum StoreError {
    NotDirectory,
}

/// Nothing but `ino` differs between the two states at this ino: same
/// presence, same item, same children in the same order, same parent.
pub open spec fn unchanged_at(pre: TreeFs, post: TreeFs, ino: u64) -> bool {
    &&& post.contains(ino) == pre.contains(ino)
    &&& post.item(ino) == pre.item(ino)
    &&& post.children(ino) == pre.children(ino)
    &&& post.parent(ino) == pre.parent(ino)
}

pub struct TreeFs {
    tree: Tree<Item>,
    ino_to_node: HashMap<u64, usize>,
}

impl TreeFs {
    spec fn n(self) -> Seq<TreeNode<Item>> {
        self.tree.spec_nodes()
    }

    spec fn m(self) -> Map<u64, usize> {
        self.ino_to_node@
    }

    /// The index holds this ino.
    pub closed spec fn contains(self, ino: u64) -> bool {
        self.m().contains_key(ino)
    }

    /// The item the index maps this ino to.
    pub closed spec fn item(self, ino: u64) -> Item {
        self.n()[self.m()[ino] as int].value
    }

    /// The inos of this item's children, in insertion order.
    pub closed spec fn children(self, ino: u64) -> Seq<u64> {
        self.n()[self.m()[ino] as int].spec_children().map(
            |j: int, c: usize| self.n()[c as int].value.ino,
        )
    }

    /// The ino of this item's parent; `None` exactly for the root.
    pub closed spec fn parent(self, ino: u64) -> Option<u64> {
        match self.n()[self.m()[ino] as int].spec_parent() {
            Some(p) => Some(self.n()[p as int].value.ino),
            None => None,
        }
    }

    /// The root's ino, if a root was set.
    pub closed spec fn root_ino(self) -> Option<u64> {
        match self.tree.spec_root() {
            Some(r) => Some(self.n()[r as int].value.ino),
            None => None,
        }
    }

    spec fn entry_ok(self, ino: u64) -> bool {
        let id = self.m()[ino] as int;
        &&& id < self.n().len()
        &&& self.n()[id].value.ino == ino
        &&& item_wf(self.n()[id].value)
    }

    spec fn parent_ok(self, ino: u64) -> bool {
        let id = self.m()[ino] as int;
        match self.n()[id].spec_parent() {
            None => self.tree.spec_root() == Some(self.m()[ino]),
            Some(p) => {
                &&& (p as int) < id
                &&& self.m().contains_key(self.n()[p as int].value.ino)
                &&& self.m()[self.n()[p as int].value.ino] == p
                &&& self.n()[p as int].value.is_dir
                &&& self.n()[p as int].spec_children().contains(self.m()[ino])
            },
        }
    }

    spec fn children_ok(self, ino: u64) -> bool {
        let id = self.m()[ino] as int;
        let kids = self.n()[id].spec_children();
        &&& (kids.len() > 0 ==> self.n()[id].value.is_dir)
        &&& (forall|j: int|
            #![trigger kids[j]]
            0 <= j < kids.len() ==> {
                let c = kids[j] as int;
                &&& c < self.n().len()
                &&& self.n()[c].spec_parent() == Some(self.m()[ino])
                &&& self.m().contains_key(self.n()[c].value.ino)
                &&& self.m()[self.n()[c].value.ino] == kids[j]
            })
        &&& (forall|j: int, k: int|
            #![trigger kids[j], kids[k]]
            0 <= j < k < kids.len() ==> kids[j] != kids[k] && self.n()[kids[j] as int].value.name@
                != self.n()[kids[k] as int].value.name@)
    }

    spec fn root_ok(self) -> bool {
        match self.tree.spec_root() {
            Some(r) => {
                &&& (r as int) < self.n().len()
                &&& self.m().contains_key(self.n()[r as int].value.ino)
                &&& self.m()[self.n()[r as int].value.ino] == r
                &&& self.n()[r as int].spec_parent() is None
                &&& self.n()[r as int].value.is_dir
            },
            None => forall|i: u64| !self.m().contains_key(i),
        }
    }

    /// The store's invariant: the index is consistent, every live node's
    /// parent and children agree, names are unique among siblings, only
    /// directories have children, and parent links descend toward the root.
    pub closed spec fn wf(self) -> bool {
        &&& self.root_ok()
        &&& (forall|ino: u64| #[trigger]
            self.m().contains_key(ino) ==> self.entry_ok(ino) && self.parent_ok(ino)
                && self.children_ok(ino))
    }

    spec fn id_reaches_root(self, id: int) -> bool
        decreases id,
    {
        if 0 <= id < self.n().len() {
            match self.n()[id].spec_parent() {
                None => self.tree.spec_root() == Some(id as usize),
                Some(p) => (p as int) < id && self.id_reaches_root(p as int),
            }
        } else {
            false
        }
    }

    /// The item is live and its chain of parent links ends at the root.
    pub closed spec fn reachable(self, ino: u64) -> bool {
        self.contains(ino) && self.id_reaches_root(self.m()[ino] as int)
    }

    /// An empty store: nothing indexed, no root.
    pub fn new() -> (r: TreeFs)
        ensures
            r.wf(),
            r.root_ino() is None,
            forall|i: u64| !r.contains(i),
    {
        TreeFs { tree: Tree::new(), ino_to_node: HashMap::new() }
    }

    /// O(1) lookup of an item by ino.
    pub fn get_item(&self, ino: u64) -> (r: Option<&Item>)
        requires
            self.wf(),
        ensures
            match r {
                Some(it) => self.contains(ino) && *it == self.item(ino),
                None => !self.contains(ino),
            },
    {
        match self.ino_to_node.get(&ino) {
            Some(id) => {
                let id = *id;
                assert(self.entry_ok(ino));
                Some(&self.tree.get(id).value)
            },
            None => None,
        }
    }

    /// The ino of an item's parent; `None` exactly for the root.
    pub fn get_parent(&self, ino: u64) -> (r: Option<u64>)
        requires
            self.wf(),
            self.contains(ino),
        ensures
            r == self.parent(ino),
    {
        let id = *self.ino_to_node.get(&ino).unwrap();
        proof {
            assert(self.entry_ok(ino));
            assert(self.parent_ok(ino));
        }
        match self.tree.get(id).get_parent() {
            Some(pid) => Some(self.tree.get(pid).value.ino),
            None => None,
        }
    }

    /// The root's ino, if a root was set.
    pub fn get_root(&self) -> (r: Option<u64>)
        requires
            self.wf(),
        ensures
            r == self.root_ino(),
    {
        match self.tree.get_root() {
            Some(rid) => Some(self.tree.get(rid).value.ino),
            None => None,
        }
    }

    /// Makes `item` the root. Fails with `NotDirectory` on a regular file; the
    /// engine sets the root only once, so the store starts out rootless here.
    pub fn set_root(&mut self, item: Item) -> (r: Result<(), StoreError>)
        requires
            old(self).wf(),
            old(self).root_ino() is None,
            item_wf(item),
        ensures
            final(self).wf(),
            !item.is_dir ==> r == Err::<(), StoreError>(StoreError::NotDirectory) && *final(self)
                == *old(self),
            item.is_dir ==> r is Ok && final(self).root_ino() == Some(item.ino)
                && final(self).contains(item.ino) && final(self).item(item.ino) == item
                && final(self).children(item.ino) =~= Seq::<u64>::empty()
                && final(self).parent(item.ino) is None
                && (forall|i: u64| final(self).contains(i) <==> i == item.ino),
    {
        if !item.is_dir {
            return Err(StoreError::NotDirectory);
        }
        let ino = item.ino;
        let ghost m0 = self.m();
        proof {
            assert(old(self).root_ok());
        }
        let id = self.tree.set_root(TreeNode::new(item));
        self.ino_to_node.insert(ino, id);
        proof {
            assert(self.m() == m0.insert(ino, id));
            assert forall|i: u64| #[trigger] self.m().contains_key(i) implies self.entry_ok(i)
                && self.parent_ok(i) && self.children_ok(i) by {
                assert(!m0.contains_key(i));
                assert(i == ino && self.m()[i] == id);
                assert(self.n()[id as int].value == item);
                assert(self.n()[id as int].spec_children().len() == 0);
                assert(self.entry_ok(i));
                assert(self.parent_ok(i));
                assert(self.children_ok(i));
            }
            assert(self.root_ok());
            assert(self.wf());
            assert(self.children(item.ino) =~= Seq::<u64>::empty());
            assert(self.root_ino() == Some(item.ino));
        }
        Ok(())
    }
}

impl TreeFs {
    /// Some child of `p` bears this name.
    pub open spec fn has_child_named(self, p: u64, name: Seq<char>) -> bool {
        exists|c: u64| #[trigger] self.children(p).contains(c) && self.item(c).name@ == name
    }

    /// The child of `p` bearing this name; meaningful when one exists, and
    /// then unique, since sibling names are unique.
    pub open spec fn child_named(self, p: u64, name: Seq<char>) -> u64 {
        choose|c: u64| #[trigger] self.children(p).contains(c) && self.item(c).name@ == name
    }

    /// How many children `p` has (zero for a regular file).
    pub fn child_count(&self, parent_ino: u64) -> (r: usize)
        requires
            self.wf(),
            self.contains(parent_ino),
        ensures
            r == self.children(parent_ino).len(),
    {
        let pid = *self.ino_to_node.get(&parent_ino).unwrap();
        proof {
            assert(self.entry_ok(parent_ino));
            assert(self.children(parent_ino).len() == self.n()[pid as int].spec_children().len());
        }
        self.tree.get(pid).iter().len()
    }

    /// The `i`th child of `parent_ino`, in insertion order.
    pub fn child_at(&self, parent_ino: u64, i: usize) -> (r: &Item)
        requires
            self.wf(),
            self.contains(parent_ino),
            i < self.children(parent_ino).len(),
        ensures
            *r == self.item(self.children(parent_ino)[i as int]),
            r.ino == self.children(parent_ino)[i as int],
    {
        let pid = *self.ino_to_node.get(&parent_ino).unwrap();
        proof {
            assert(self.entry_ok(parent_ino));
            assert(self.children_ok(parent_ino));
        }
        let cid = self.tree.get(pid).iter()[i];
        proof {
            let kids = self.n()[pid as int].spec_children();
            assert(kids[i as int] == cid);
            let cino = self.n()[cid as int].value.ino;
            assert(self.children(parent_ino)[i as int] == cino);
            assert(self.m().contains_key(cino) && self.m()[cino] == cid);
        }
        &self.tree.get(cid).value
    }

    /// Linear scan of a directory's children for the first (and only) child
    /// with this name.
    pub fn find_child(&self, parent_ino: u64, name: &String) -> (r: Option<u64>)
        requires
            self.wf(),
            self.contains(parent_ino),
        ensures
            r == if self.has_child_named(parent_ino, name@) {
                Some(self.child_named(parent_ino, name@))
            } else {
                None::<u64>
            },
    {
        let count = self.child_count(parent_ino);
        let mut i: usize = 0;
        while i < count
            invariant
                self.wf(),
                self.contains(parent_ino),
                count == self.children(parent_ino).len(),
                i <= count,
                forall|j: int|
                    0 <= j < i ==> self.item(
                        #[trigger] self.children(parent_ino)[j],
                    ).name@ != name@,
            decreases count - i,
        {
            let child = self.child_at(parent_ino, i);
            if child.name == *name {
                let c = child.ino;
                proof {
                    assert(self.children(parent_ino)[i as int] == c);
                    assert(self.children(parent_ino).contains(c));
                    lemma_child_named_unique(*self, parent_ino, name@, c);
                }
                return Some(c);
            }
            i = i + 1;
        }
        proof {
            if self.has_child_named(parent_ino, name@) {
                let c = choose|c: u64|
                    #[trigger] self.children(parent_ino).contains(c) && self.item(c).name@
                        == name@;
                let j = choose|j: int|
                    0 <= j < self.children(parent_ino).len() && self.children(parent_ino)[j] == c;
                assert(self.item(self.children(parent_ino)[j]).name@ != name@);
                assert(false);
            }
        }
        None
    }
}

impl TreeFs {
    /// Attaches `child` under `parent_ino` as its last child and indexes its
    /// ino. The ino must be fresh and the name unused among the parent's
    /// children. Fails with `NotDirectory` when the parent is a regular file.
    pub fn push(&mut self, parent_ino: u64, child: Item) -> (r: Result<(), StoreError>)
        requires
            old(self).wf(),
            old(self).contains(parent_ino),
            !old(self).contains(child.ino),
            item_wf(child),
            forall|j: int|
                0 <= j < old(self).children(parent_ino).len() ==> old(self).item(
                    #[trigger] old(self).children(parent_ino)[j],
                ).name@ != child.name@,
        ensures
            final(self).wf(),
            !old(self).item(parent_ino).is_dir ==> r == Err::<(), StoreError>(
                StoreError::NotDirectory,
            ) && *final(self) == *old(self),
            old(self).item(parent_ino).is_dir ==> r is Ok && {
                &&& final(self).contains(child.ino)
                &&& final(self).item(child.ino) == child
                &&& final(self).children(child.ino) =~= Seq::<u64>::empty()
                &&& final(self).parent(child.ino) == Some(parent_ino)
                &&& final(self).children(parent_ino) == old(self).children(parent_ino).push(
                    child.ino,
                )
                &&& final(self).item(parent_ino) == old(self).item(parent_ino)
                &&& final(self).parent(parent_ino) == old(self).parent(parent_ino)
                &&& final(self).root_ino() == old(self).root_ino()
                &&& forall|i: u64|
                    final(self).contains(i) <==> (old(self).contains(i) || i == child.ino)
                &&& forall|i: u64|
                    old(self).contains(i) && i != parent_ino && i != child.ino ==> unchanged_at(
                        *old(self),
                        *final(self),
                        i,
                    )
            },
    {
        let pid = *self.ino_to_node.get(&parent_ino).unwrap();
        proof {
            assert(old(self).entry_ok(parent_ino));
            assert(old(self).children_ok(parent_ino));
        }
        if !self.tree.get(pid).value.is_dir {
            return Err(StoreError::NotDirectory);
        }
        let cino = child.ino;
        let ghost pre = *old(self);
        let id = self.tree.push_child(pid, TreeNode::new(child));
        self.ino_to_node.insert(cino, id);
        proof {
            lemma_push_wf(pre, *self, parent_ino, child, pid, id);
        }
        Ok(())
    }
}

#[verifier::rlimit(100)]
#[verifier::spinoff_prover]
proof fn lemma_push_wf(pre: TreeFs, post: TreeFs, parent_ino: u64, child: Item, pid: usize, id: usize)
    requires
        pre.wf(),
        pre.contains(parent_ino),
        !pre.contains(child.ino),
        item_wf(child),
        forall|j: int|
            0 <= j < pre.children(parent_ino).len() ==> pre.item(
                #[trigger] pre.children(parent_ino)[j],
            ).name@ != child.name@,
        pre.item(parent_ino).is_dir,
        pid == pre.m()[parent_ino],
        id == pre.n().len(),
        post.m() == pre.m().insert(child.ino, id),
        post.tree.spec_root() == pre.tree.spec_root(),
        post.n().len() == pre.n().len() + 1,
        post.n()[id as int].value == child,
        post.n()[id as int].spec_children() =~= Seq::<usize>::empty(),
        post.n()[id as int].spec_parent() == Some(pid),
        post.n()[pid as int].value == pre.n()[pid as int].value,
        post.n()[pid as int].spec_parent() == pre.n()[pid as int].spec_parent(),
        post.n()[pid as int].spec_children() == pre.n()[pid as int].spec_children().push(id),
        forall|j: int|
            0 <= j < pre.n().len() && j != pid ==> post.n()[j] == pre.n()[j],
    ensures
        post.wf(),
        post.contains(child.ino),
        post.item(child.ino) == child,
        post.children(child.ino) =~= Seq::<u64>::empty(),
        post.parent(child.ino) == Some(parent_ino),
        post.children(parent_ino) == pre.children(parent_ino).push(child.ino),
        post.item(parent_ino) == pre.item(parent_ino),
        post.parent(parent_ino) == pre.parent(parent_ino),
        post.root_ino() == pre.root_ino(),
        forall|i: u64| post.contains(i) <==> (pre.contains(i) || i == child.ino),
        forall|i: u64|
            pre.contains(i) && i != parent_ino && i != child.ino ==> unchanged_at(pre, post, i),
{
    let cino = child.ino;
    assert(pre.entry_ok(parent_ino));
    assert(pre.children_ok(parent_ino));
    // Every pre-live node id stays below `id`, and keeps its value.
    assert forall|i: u64| #[trigger] pre.m().contains_key(i) implies pre.m()[i] < id && post.n()[
        pre.m()[i] as int
    ].value == pre.n()[pre.m()[i] as int].value && i != cino by {
        assert(pre.entry_ok(i));
    }
    // Children of any pre-live node keep their nodes entirely.
    assert forall|i: u64, j: int|
        #![trigger pre.m().contains_key(i), pre.n()[pre.m()[i] as int].spec_children()[j]]
        pre.m().contains_key(i) && 0 <= j < pre.n()[pre.m()[i] as int].spec_children().len()
        implies {
        let c = pre.n()[pre.m()[i] as int].spec_children()[j] as int;
        &&& c < pre.n().len()
        &&& post.n()[c].value == pre.n()[c].value
        &&& post.n()[c].spec_parent() == pre.n()[c].spec_parent()
    } by {
        assert(pre.entry_ok(i));
        assert(pre.children_ok(i));
        let c = pre.n()[pre.m()[i] as int].spec_children()[j];
        if c != pid {
            assert(post.n()[c as int] == pre.n()[c as int]);
        }
    }
    assert(post.contains(cino) && post.m()[cino] == id);
    assert(post.item(cino) == child);
    assert(post.children(cino) =~= Seq::<u64>::empty());
    assert(post.parent(cino) == Some(parent_ino));
    // The parent's child-ino list gains exactly the new ino.
    assert(post.children(parent_ino) =~= pre.children(parent_ino).push(cino)) by {
        let kids0 = pre.n()[pid as int].spec_children();
        assert forall|j: int| 0 <= j < kids0.len() implies post.n()[
            #[trigger] kids0[j] as int
        ].value.ino == pre.n()[kids0[j] as int].value.ino by {
            assert(pre.children_ok(parent_ino));
        }
    }
    // Frame for every other pre-live ino.
    assert forall|i: u64| pre.contains(i) && i != parent_ino && i != cino implies unchanged_at(
        pre,
        post,
        i,
    ) by {
        assert(pre.entry_ok(i));
        assert(pre.children_ok(i));
        let idi = pre.m()[i] as int;
        assert(post.n()[idi] == pre.n()[idi]);
        assert(post.children(i) =~= pre.children(i)) by {
            let kids = pre.n()[idi].spec_children();
            assert forall|j: int| 0 <= j < kids.len() implies post.n()[
                #[trigger] kids[j] as int
            ].value.ino == pre.n()[kids[j] as int].value.ino by {}
        }
        match pre.n()[idi].spec_parent() {
            None => {},
            Some(p) => {
                assert(pre.parent_ok(i));
                assert(post.n()[p as int].value == pre.n()[p as int].value);
            },
        }
    }
    assert(post.children(parent_ino) == pre.children(parent_ino).push(cino));
    assert(post.item(parent_ino) == pre.item(parent_ino));
    assert(post.parent(parent_ino) == pre.parent(parent_ino)) by {
        match pre.n()[pid as int].spec_parent() {
            None => {},
            Some(p) => {
                assert(pre.parent_ok(parent_ino));
                assert(post.n()[p as int] == pre.n()[p as int]);
            },
        }
    }
    assert(post.root_ino() == pre.root_ino()) by {
        match pre.tree.spec_root() {
            None => {},
            Some(rt) => {
                assert(pre.root_ok());
                assert(post.n()[rt as int].value == pre.n()[rt as int].value);
            },
        }
    }
    // Well-formedness of the new state.
    assert forall|i: u64| #[trigger] post.m().contains_key(i) implies post.entry_ok(i)
        && post.parent_ok(i) && post.children_ok(i) by {
        if i == cino {
            assert(post.entry_ok(i));
            assert(pre.contains(parent_ino) && pre.m()[parent_ino] == pid);
            assert(post.m().contains_key(parent_ino) && post.m()[parent_ino] == pid);
            assert(post.n()[pid as int].spec_children().contains(id)) by {
                let kids1 = post.n()[pid as int].spec_children();
                assert(kids1[kids1.len() - 1] == id);
            }
            assert((pid as int) < id as int);
            assert(post.parent_ok(i));
            assert(post.children_ok(i));
        } else {
            assert(pre.m().contains_key(i));
            assert(pre.entry_ok(i) && pre.parent_ok(i) && pre.children_ok(i));
            let idi = pre.m()[i] as int;
            assert(post.m()[i] == pre.m()[i]);
            assert(post.entry_ok(i));
            // parent link
            match pre.n()[idi].spec_parent() {
                None => {
                    assert(post.parent_ok(i));
                },
                Some(p) => {
                    assert(post.n()[p as int].value == pre.n()[p as int].value);
                    let pi = pre.n()[p as int].value.ino;
                    assert(post.m().contains_key(pi) && post.m()[pi] == p);
                    if p == pid {
                        assert(post.n()[p as int].spec_children().contains(pre.m()[i])) by {
                            let kids0 = pre.n()[pid as int].spec_children();
                            let jj = choose|jj: int|
                                0 <= jj < kids0.len() && kids0[jj] == pre.m()[i];
                            assert(post.n()[pid as int].spec_children()[jj] == pre.m()[i]);
                        }
                    } else {
                        assert(post.n()[p as int] == pre.n()[p as int]);
                    }
                    assert(post.parent_ok(i));
                },
            }
            // children
            let kids = pre.n()[idi].spec_children();
            if idi == pid as int {
                let kids1 = post.n()[idi].spec_children();
                assert(kids1 == kids.push(id));
                assert forall|j: int| #![trigger kids1[j]] 0 <= j < kids1.len() implies {
                    let c = kids1[j] as int;
                    &&& c < post.n().len()
                    &&& post.n()[c].spec_parent() == Some(post.m()[i])
                    &&& post.m().contains_key(post.n()[c].value.ino)
                    &&& post.m()[post.n()[c].value.ino] == kids1[j]
                } by {
                    if j < kids.len() {
                        assert(kids1[j] == kids[j]);
                        let c = kids[j] as int;
                        assert(post.n()[c] == pre.n()[c]);
                        let ci = pre.n()[c].value.ino;
                        assert(pre.m().contains_key(ci) && pre.m()[ci] == kids[j]);
                        assert(ci != cino);
                    } else {
                        assert(kids1[j] == id);
                    }
                }
                assert forall|j: int, k: int|
                    #![trigger kids1[j], kids1[k]]
                    0 <= j < k < kids1.len() implies kids1[j] != kids1[k] && post.n()[
                    kids1[j] as int
                ].value.name@ != post.n()[kids1[k] as int].value.name@ by {
                    if k < kids.len() {
                        assert(kids1[j] == kids[j] && kids1[k] == kids[k]);
                        assert(post.n()[kids[j] as int] == pre.n()[kids[j] as int]);
                        assert(post.n()[kids[k] as int] == pre.n()[kids[k] as int]);
                    } else {
                        assert(kids1[k] == id);
                        assert(kids1[j] == kids[j]);
                        let c = kids[j] as int;
                        assert(c < pre.n().len());
                        assert(kids[j] != id);
                        assert(post.n()[c] == pre.n()[c]);
                        let ci = pre.n()[c].value.ino;
                        assert(pre.children(parent_ino)[j] == ci);
                        assert(pre.m()[ci] == kids[j]);
                        assert(pre.item(ci).name@ != child.name@);
                        assert(pre.item(ci) == pre.n()[c].value);
                    }
                }
                assert(post.children_ok(i));
            } else {
                assert(post.n()[idi] == pre.n()[idi]);
                assert forall|j: int| #![trigger kids[j]] 0 <= j < kids.len() implies {
                    let c = kids[j] as int;
                    &&& c < post.n().len()
                    &&& post.n()[c].spec_parent() == Some(post.m()[i])
                    &&& post.m().contains_key(post.n()[c].value.ino)
                    &&& post.m()[post.n()[c].value.ino] == kids[j]
                } by {
                    let c = kids[j] as int;
                    assert(post.n()[c].value == pre.n()[c].value);
                    assert(post.n()[c].spec_parent() == pre.n()[c].spec_parent());
                    let ci = pre.n()[c].value.ino;
                    assert(pre.m().contains_key(ci) && pre.m()[ci] == kids[j]);
                    assert(ci != cino);
                }
                assert forall|j: int, k: int|
                    #![trigger kids[j], kids[k]]
                    0 <= j < k < kids.len() implies kids[j] != kids[k] && post.n()[
                    kids[j] as int
                ].value.name@ != post.n()[kids[k] as int].value.name@ by {
                    assert(post.n()[kids[j] as int].value == pre.n()[kids[j] as int].value);
                    assert(post.n()[kids[k] as int].value == pre.n()[kids[k] as int].value);
                }
                assert(post.children_ok(i));
            }
        }
    }
    assert(post.root_ok()) by {
        match post.tree.spec_root() {
            None => {
                assert(pre.root_ok());
                assert(!pre.m().contains_key(parent_ino));
            },
            Some(rt) => {
                assert(pre.root_ok());
                assert(post.n()[rt as int].value == pre.n()[rt as int].value);
                assert(post.n()[rt as int].spec_parent() == pre.n()[rt as int].spec_parent());
                let ri = pre.n()[rt as int].value.ino;
                assert(ri != cino);
            },
        }
    }
    assert(post.wf());
}

impl TreeFs {
    /// Replaces the item's attribute record. The new record must keep the
    /// item coherent: same ino, same kind, size still matching the shape.
    pub fn set_attr(&mut self, ino: u64, attr: Attr)
        requires
            old(self).wf(),
            old(self).contains(ino),
            item_wf(Item { attr, ..old(self).item(ino) }),
        ensures
            final(self).wf(),
            final(self).item(ino) == (Item { attr, ..old(self).item(ino) }),
            final(self).children(ino) == old(self).children(ino),
            final(self).parent(ino) == old(self).parent(ino),
            final(self).root_ino() == old(self).root_ino(),
            forall|i: u64| final(self).contains(i) == old(self).contains(i),
            forall|i: u64|
                old(self).contains(i) && i != ino ==> unchanged_at(*old(self), *final(self), i),
    {
        let id = *self.ino_to_node.get(&ino).unwrap();
        proof {
            assert(old(self).entry_ok(ino));
        }
        let it = self.tree.value_mut(id);
        it.attr = attr;
        proof {
            lemma_value_update_wf(*old(self), *self, ino);
        }
    }

    /// Renames the item. The new name must not collide with a sibling's.
    pub fn set_name(&mut self, ino: u64, name: String)
        requires
            old(self).wf(),
            old(self).contains(ino),
            match old(self).parent(ino) {
                Some(p) => forall|j: int|
                    0 <= j < old(self).children(p).len() && old(self).children(p)[j] != ino
                        ==> old(self).item(#[trigger] old(self).children(p)[j]).name@ != name@,
                None => true,
            },
        ensures
            final(self).wf(),
            final(self).item(ino) == (Item { name, ..old(self).item(ino) }),
            final(self).children(ino) == old(self).children(ino),
            final(self).parent(ino) == old(self).parent(ino),
            final(self).root_ino() == old(self).root_ino(),
            forall|i: u64| final(self).contains(i) == old(self).contains(i),
            forall|i: u64|
                old(self).contains(i) && i != ino ==> unchanged_at(*old(self), *final(self), i),
    {
        let id = *self.ino_to_node.get(&ino).unwrap();
        proof {
            assert(old(self).entry_ok(ino));
        }
        let it = self.tree.value_mut(id);
        it.name = name;
        proof {
            lemma_value_update_wf(*old(self), *self, ino);
        }
    }

    /// Replaces a regular file's content; its reported size and block count
    /// follow the new length.
    pub fn set_content(&mut self, ino: u64, data: Vec<u8>)
        requires
            old(self).wf(),
            old(self).contains(ino),
            !old(self).item(ino).is_dir,
        ensures
            final(self).wf(),
            final(self).item(ino) == (Item {
                data,
                attr: (Attr {
                    size: data@.len() as u64,
                    blocks: blocks_of(data@.len() as u64) as u64,
                    ..old(self).item(ino).attr
                }),
                ..old(self).item(ino)
            }),
            final(self).children(ino) == old(self).children(ino),
            final(self).parent(ino) == old(self).parent(ino),
            final(self).root_ino() == old(self).root_ino(),
            forall|i: u64| final(self).contains(i) == old(self).contains(i),
            forall|i: u64|
                old(self).contains(i) && i != ino ==> unchanged_at(*old(self), *final(self), i),
    {
        let id = *self.ino_to_node.get(&ino).unwrap();
        proof {
            assert(old(self).entry_ok(ino));
        }
        let len = data.len();
        let blocks = crate::attr::blocks_for_size(len as u64);
        let it = self.tree.value_mut(id);
        it.data = data;
        it.attr.size = len as u64;
        it.attr.blocks = blocks;
        proof {
            lemma_value_update_wf(*old(self), *self, ino);
        }
    }

    /// Detaches `child_ino` from its parent and drops it from the index. The
    /// child must hang exactly under `parent_ino` — anything else is a
    /// programmer error, excluded up front — and must itself be childless.
    /// Returns the position the child held among its siblings.
    pub fn remove_child(&mut self, parent_ino: u64, child_ino: u64) -> (idx: usize)
        requires
            old(self).wf(),
            old(self).contains(parent_ino),
            old(self).contains(child_ino),
            old(self).parent(child_ino) == Some(parent_ino),
            old(self).children(child_ino).len() == 0,
        ensures
            final(self).wf(),
            idx < old(self).children(parent_ino).len(),
            old(self).children(parent_ino)[idx as int] == child_ino,
            final(self).children(parent_ino) == old(self).children(parent_ino).remove(idx as int),
            !final(self).contains(child_ino),
            final(self).item(parent_ino) == old(self).item(parent_ino),
            final(self).parent(parent_ino) == old(self).parent(parent_ino),
            final(self).root_ino() == old(self).root_ino(),
            forall|i: u64|
                final(self).contains(i) <==> (old(self).contains(i) && i != child_ino),
            forall|i: u64|
                old(self).contains(i) && i != parent_ino && i != child_ino ==> unchanged_at(
                    *old(self),
                    *final(self),
                    i,
                ),
    {
        let pid = *self.ino_to_node.get(&parent_ino).unwrap();
        let cid = *self.ino_to_node.get(&child_ino).unwrap();
        proof {
            assert(old(self).entry_ok(parent_ino));
            assert(old(self).entry_ok(child_ino));
            assert(old(self).parent_ok(child_ino));
            let pp = old(self).n()[cid as int].spec_parent()->Some_0;
            assert(old(self).n()[pp as int].value.ino == parent_ino);
            assert(old(self).m()[parent_ino] == pp);
            assert(pp == pid);
            assert(old(self).n()[pid as int].spec_children().contains(cid));
            assert((pid as int) < cid as int);
        }
        let ghost pre = *old(self);
        let idx = self.tree.remove_child(pid, cid);
        self.ino_to_node.remove(&child_ino);
        proof {
            lemma_remove_wf(pre, *self, parent_ino, child_ino, pid, cid, idx);
        }
        idx
    }
}

/// Well-formedness and framing for a payload-only update at one node: the
/// structure is untouched, the item keeps its ino and kind, and a changed
/// name stays unique among the siblings.
#[verifier::rlimit(100)]
#[verifier::spinoff_prover]
proof fn lemma_value_update_wf(pre: TreeFs, post: TreeFs, ino: u64)
    requires
        pre.wf(),
        pre.contains(ino),
        post.m() == pre.m(),
        post.tree.spec_root() == pre.tree.spec_root(),
        post.n().len() == pre.n().len(),
        forall|j: int|
            0 <= j < pre.n().len() && j != pre.m()[ino] as int ==> post.n()[j] == pre.n()[j],
        post.n()[pre.m()[ino] as int].spec_children() == pre.n()[
            pre.m()[ino] as int
        ].spec_children(),
        post.n()[pre.m()[ino] as int].spec_parent() == pre.n()[pre.m()[ino] as int].spec_parent(),
        post.n()[pre.m()[ino] as int].value.ino == pre.n()[pre.m()[ino] as int].value.ino,
        post.n()[pre.m()[ino] as int].value.is_dir == pre.n()[pre.m()[ino] as int].value.is_dir,
        item_wf(post.n()[pre.m()[ino] as int].value),
        post.n()[pre.m()[ino] as int].value.name@ == pre.n()[pre.m()[ino] as int].value.name@
            || match pre.parent(ino) {
            Some(p) => forall|j: int|
                0 <= j < pre.children(p).len() && pre.children(p)[j] != ino ==> pre.item(
                    #[trigger] pre.children(p)[j],
                ).name@ != post.n()[pre.m()[ino] as int].value.name@,
            None => true,
        },
    ensures
        post.wf(),
        post.item(ino) == post.n()[pre.m()[ino] as int].value,
        post.children(ino) == pre.children(ino),
        post.parent(ino) == pre.parent(ino),
        post.root_ino() == pre.root_ino(),
        forall|i: u64| post.contains(i) == pre.contains(i),
        forall|i: u64| pre.contains(i) && i != ino ==> unchanged_at(pre, post, i),
{
    let id = pre.m()[ino] as int;
    assert(pre.entry_ok(ino));
    // Node values keep their ino everywhere, so every ino-level accessor of
    // an untouched item reads the same.
    assert forall|c: int| 0 <= c < pre.n().len() implies post.n()[c].value.ino == pre.n()[
        c
    ].value.ino && post.n()[c].value.is_dir == pre.n()[c].value.is_dir && post.n()[
        c
    ].spec_parent() == pre.n()[c].spec_parent() && post.n()[c].spec_children() == pre.n()[
        c
    ].spec_children() by {
        if c != id {
            assert(post.n()[c] == pre.n()[c]);
        }
    }
    assert forall|i: u64| #[trigger] pre.m().contains_key(i) implies post.children(i)
        == pre.children(i) && post.parent(i) == pre.parent(i) by {
        assert(pre.entry_ok(i));
        assert(pre.children_ok(i));
        let idi = pre.m()[i] as int;
        assert(post.children(i) =~= pre.children(i)) by {
            let kids = pre.n()[idi].spec_children();
            assert forall|j: int| 0 <= j < kids.len() implies post.n()[
                #[trigger] kids[j] as int
            ].value.ino == pre.n()[kids[j] as int].value.ino by {}
        }
        match pre.n()[idi].spec_parent() {
            None => {},
            Some(p) => {
                assert(pre.parent_ok(i));
            },
        }
    }
    assert forall|i: u64| pre.contains(i) && i != ino implies unchanged_at(pre, post, i) by {
        assert(pre.entry_ok(i));
        assert(pre.m()[i] as int != id);
        assert(post.n()[pre.m()[i] as int] == pre.n()[pre.m()[i] as int]);
    }
    assert(post.root_ino() == pre.root_ino()) by {
        match pre.tree.spec_root() {
            None => {},
            Some(rt) => {
                assert(pre.root_ok());
            },
        }
    }
    // Well-formedness.
    assert forall|i: u64| #[trigger] post.m().contains_key(i) implies post.entry_ok(i)
        && post.parent_ok(i) && post.children_ok(i) by {
        assert(pre.entry_ok(i) && pre.parent_ok(i) && pre.children_ok(i));
        let idi = pre.m()[i] as int;
        assert(post.entry_ok(i)) by {
            if idi != id {
                assert(post.n()[idi] == pre.n()[idi]);
            }
        }
        assert(post.parent_ok(i));
        let kids = pre.n()[idi].spec_children();
        assert forall|j: int, k: int|
            #![trigger kids[j], kids[k]]
            0 <= j < k < kids.len() implies kids[j] != kids[k] && post.n()[
            kids[j] as int
        ].value.name@ != post.n()[kids[k] as int].value.name@ by {
            assert(kids[j] != kids[k] && pre.n()[kids[j] as int].value.name@ != pre.n()[
                kids[k] as int
            ].value.name@);
            if post.n()[id].value.name@ == pre.n()[id].value.name@ {
                assert forall|c: int| 0 <= c < pre.n().len() implies post.n()[c].value.name@
                    == pre.n()[c].value.name@ by {
                    if c != id {
                        assert(post.n()[c] == pre.n()[c]);
                    }
                }
            } else {
                // A renamed node can collide only with its own siblings, and
                // those were required to differ from the new name.
                if kids[j] as int == id || kids[k] as int == id {
                    assert(pre.n()[id].spec_parent() == Some(pre.m()[i]));
                    assert(pre.parent_ok(ino));
                    let pp = pre.n()[id].spec_parent()->Some_0;
                    let pino = pre.n()[pp as int].value.ino;
                    assert(pre.parent(ino) == Some(pino));
                    assert(pre.m().contains_key(pino) && pre.m()[pino] == pp);
                    assert(pp == pre.m()[i]);
                    assert(pino == i);
                    let p = pre.parent(ino)->Some_0;
                    assert(p == pino);
                    assert(pre.children(p).len() == kids.len());
                    if kids[j] as int == id {
                        let other = pre.n()[kids[k] as int].value.ino;
                        assert(pre.children(p)[k] == other);
                        assert(pre.m()[other] == kids[k]);
                        assert(other != ino);
                        assert(0 <= k < pre.children(p).len() && pre.children(p)[k] != ino);
                        assert(pre.item(pre.children(p)[k]).name@ != post.n()[
                            pre.m()[ino] as int
                        ].value.name@);
                        assert(pre.item(other) == pre.n()[kids[k] as int].value);
                        assert(post.n()[kids[k] as int] == pre.n()[kids[k] as int]);
                    } else {
                        let other = pre.n()[kids[j] as int].value.ino;
                        assert(pre.children(p)[j] == other);
                        assert(pre.m()[other] == kids[j]);
                        assert(other != ino);
                        assert(0 <= j < pre.children(p).len() && pre.children(p)[j] != ino);
                        assert(pre.item(pre.children(p)[j]).name@ != post.n()[
                            pre.m()[ino] as int
                        ].value.name@);
                        assert(pre.item(other) == pre.n()[kids[j] as int].value);
                        assert(post.n()[kids[j] as int] == pre.n()[kids[j] as int]);
                    }
                } else {
                    assert(post.n()[kids[j] as int] == pre.n()[kids[j] as int]);
                    assert(post.n()[kids[k] as int] == pre.n()[kids[k] as int]);
                }
            }
        }
        assert(post.children_ok(i));
    }
    assert(post.root_ok()) by {
        match post.tree.spec_root() {
            None => {
                assert(pre.root_ok());
            },
            Some(rt) => {
                assert(pre.root_ok());
            },
        }
    }
    assert(post.wf());
}

/// Well-formedness and framing for detaching one childless node.
#[verifier::rlimit(100)]
#[verifier::spinoff_prover]
proof fn lemma_remove_wf(
    pre: TreeFs,
    post: TreeFs,
    parent_ino: u64,
    child_ino: u64,
    pid: usize,
    cid: usize,
    idx: usize,
)
    requires
        pre.wf(),
        pre.contains(parent_ino),
        pre.contains(child_ino),
        pre.parent(child_ino) == Some(parent_ino),
        pre.children(child_ino).len() == 0,
        pid == pre.m()[parent_ino],
        cid == pre.m()[child_ino],
        idx < pre.n()[pid as int].spec_children().len(),
        pre.n()[pid as int].spec_children()[idx as int] == cid,
        post.m() == pre.m().remove(child_ino),
        post.tree.spec_root() == pre.tree.spec_root(),
        post.n().len() == pre.n().len(),
        post.n()[pid as int].value == pre.n()[pid as int].value,
        post.n()[pid as int].spec_parent() == pre.n()[pid as int].spec_parent(),
        post.n()[pid as int].spec_children() == pre.n()[pid as int].spec_children().remove(
            idx as int,
        ),
        post.n()[cid as int].value == pre.n()[cid as int].value,
        post.n()[cid as int].spec_children() == pre.n()[cid as int].spec_children(),
        post.n()[cid as int].spec_parent() is None,
        forall|j: int|
            0 <= j < pre.n().len() && j != pid as int && j != cid as int
                ==> post.n()[j] == pre.n()[j],
    ensures
        post.wf(),
        pre.children(parent_ino)[idx as int] == child_ino,
        post.children(parent_ino) == pre.children(parent_ino).remove(idx as int),
        !post.contains(child_ino),
        post.item(parent_ino) == pre.item(parent_ino),
        post.parent(parent_ino) == pre.parent(parent_ino),
        post.root_ino() == pre.root_ino(),
        forall|i: u64| post.contains(i) <==> (pre.contains(i) && i != child_ino),
        forall|i: u64|
            pre.contains(i) && i != parent_ino && i != child_ino ==> unchanged_at(pre, post, i),
{
    let kids = pre.n()[pid as int].spec_children();
    assert(pre.entry_ok(parent_ino));
    assert(pre.entry_ok(child_ino));
    assert(pre.children_ok(parent_ino));
    assert(pre.children_ok(child_ino));
    assert(pre.children(parent_ino)[idx as int] == child_ino);
    // Node values are preserved at every index; only structure at pid and cid
    // changed.
    assert forall|c: int| 0 <= c < pre.n().len() implies post.n()[c].value == pre.n()[c].value by {
        if c != pid as int && c != cid as int {
            assert(post.n()[c] == pre.n()[c]);
        }
    }
    // cid appears in kids only at idx.
    assert forall|j: int| 0 <= j < kids.len() && j != idx as int implies kids[j] != cid by {
        if j < idx as int {
            assert(kids[j] != kids[idx as int]);
        } else {
            assert(kids[idx as int] != kids[j]);
        }
    }
    // No live node other than the child's own entry maps to cid, and no other
    // node's child list holds cid.
    assert forall|i: u64| #[trigger] pre.m().contains_key(i) && i != child_ino implies pre.m()[i]
        != cid by {
        assert(pre.entry_ok(i));
    }
    assert(post.children(parent_ino) =~= pre.children(parent_ino).remove(idx as int)) by {
        let kids1 = post.n()[pid as int].spec_children();
        assert(kids1 == kids.remove(idx as int));
        assert forall|j: int| 0 <= j < kids1.len() implies post.n()[
            #[trigger] kids1[j] as int
        ].value.ino == pre.children(parent_ino).remove(idx as int)[j] by {
            if j < idx as int {
                assert(kids1[j] == kids[j]);
                assert(pre.children(parent_ino).remove(idx as int)[j] == pre.children(
                    parent_ino,
                )[j]);
            } else {
                assert(kids1[j] == kids[j + 1]);
                assert(pre.children(parent_ino).remove(idx as int)[j] == pre.children(
                    parent_ino,
                )[j + 1]);
            }
        }
    }
    assert forall|i: u64| pre.contains(i) && i != parent_ino && i != child_ino implies
        unchanged_at(pre, post, i) by {
        assert(pre.entry_ok(i));
        assert(pre.children_ok(i));
        let idi = pre.m()[i] as int;
        assert(idi != cid as int);
        assert(idi != pid as int);
        assert(post.n()[idi] == pre.n()[idi]);
        assert(post.children(i) =~= pre.children(i)) by {
            let k2 = pre.n()[idi].spec_children();
            assert forall|j: int| 0 <= j < k2.len() implies post.n()[
                #[trigger] k2[j] as int
            ].value.ino == pre.n()[k2[j] as int].value.ino by {}
        }
        match pre.n()[idi].spec_parent() {
            None => {},
            Some(p) => {
                assert(pre.parent_ok(i));
                assert(p != cid) by {
                    if p == cid {
                        assert(pre.n()[cid as int].spec_children().contains(pre.m()[i]));
                        assert(pre.children(child_ino).len() == pre.n()[
                            cid as int
                        ].spec_children().len());
                    }
                }
            },
        }
    }
    assert(post.item(parent_ino) == pre.item(parent_ino));
    assert(post.parent(parent_ino) == pre.parent(parent_ino)) by {
        match pre.n()[pid as int].spec_parent() {
            None => {},
            Some(p) => {
                assert(pre.parent_ok(parent_ino));
                assert(p != cid) by {
                    if p == cid {
                        assert(pre.n()[cid as int].spec_children().contains(pid));
                        assert(pre.children(child_ino).len() == pre.n()[
                            cid as int
                        ].spec_children().len());
                    }
                }
            },
        }
    }
    assert(post.root_ino() == pre.root_ino()) by {
        match pre.tree.spec_root() {
            None => {},
            Some(rt) => {
                assert(pre.root_ok());
            },
        }
    }
    // Well-formedness.
    assert forall|i: u64| #[trigger] post.m().contains_key(i) implies post.entry_ok(i)
        && post.parent_ok(i) && post.children_ok(i) by {
        assert(pre.m().contains_key(i) && i != child_ino);
        assert(pre.entry_ok(i) && pre.parent_ok(i) && pre.children_ok(i));
        let idi = pre.m()[i] as int;
        assert(idi != cid as int);
        assert(post.entry_ok(i));
        // parent link
        match pre.n()[idi].spec_parent() {
            None => {
                assert(post.parent_ok(i));
            },
            Some(p) => {
                assert(p != cid) by {
                    if p == cid {
                        assert(pre.n()[cid as int].spec_children().contains(pre.m()[i]));
                        assert(pre.children(child_ino).len() == pre.n()[
                            cid as int
                        ].spec_children().len());
                    }
                }
                let pi = pre.n()[p as int].value.ino;
                assert(pi != child_ino) by {
                    assert(pre.m()[pi] == p);
                }
                if p == pid {
                    assert(post.n()[p as int].spec_children().contains(pre.m()[i])) by {
                        let jj = choose|jj: int| 0 <= jj < kids.len() && kids[jj] == pre.m()[i];
                        assert(jj != idx as int);
                        if jj < idx as int {
                            assert(post.n()[pid as int].spec_children()[jj] == kids[jj]);
                        } else {
                            assert(post.n()[pid as int].spec_children()[jj - 1] == kids[jj]);
                        }
                    }
                }
                assert(post.parent_ok(i));
            },
        }
        // children
        let kids0 = pre.n()[idi].spec_children();
        if idi == pid as int {
            let kids1 = post.n()[idi].spec_children();
            assert forall|j: int| #![trigger kids1[j]] 0 <= j < kids1.len() implies {
                let c = kids1[j] as int;
                &&& c < post.n().len()
                &&& post.n()[c].spec_parent() == Some(post.m()[i])
                &&& post.m().contains_key(post.n()[c].value.ino)
                &&& post.m()[post.n()[c].value.ino] == kids1[j]
            } by {
                let j0 = if j < idx as int { j } else { j + 1 };
                assert(kids1[j] == kids0[j0]);
                assert(kids0[j0] != cid);
                let c = kids0[j0] as int;
                assert(post.n()[c] == pre.n()[c]) by {
                    assert(c != cid as int);
                    if c == pid as int {
                        assert(pre.n()[c].spec_parent() == Some(pid));
                        assert(pre.parent_ok(pre.n()[c].value.ino));
                    }
                }
                let ci = pre.n()[c].value.ino;
                assert(pre.m().contains_key(ci) && pre.m()[ci] == kids0[j0]);
                assert(ci != child_ino);
            }
            assert forall|j: int, k: int|
                #![trigger kids1[j], kids1[k]]
                0 <= j < k < kids1.len() implies kids1[j] != kids1[k] && post.n()[
                kids1[j] as int
            ].value.name@ != post.n()[kids1[k] as int].value.name@ by {
                let j0 = if j < idx as int { j } else { j + 1 };
                let k0 = if k < idx as int { k } else { k + 1 };
                assert(kids1[j] == kids0[j0] && kids1[k] == kids0[k0]);
                assert(kids0[j0] != kids0[k0] && pre.n()[kids0[j0] as int].value.name@ != pre.n()[
                    kids0[k0] as int
                ].value.name@);
            }
            assert(post.children_ok(i));
        } else {
            assert(post.n()[idi] == pre.n()[idi]);
            assert forall|j: int| #![trigger kids0[j]] 0 <= j < kids0.len() implies {
                let c = kids0[j] as int;
                &&& c < post.n().len()
                &&& post.n()[c].spec_parent() == Some(post.m()[i])
                &&& post.m().contains_key(post.n()[c].value.ino)
                &&& post.m()[post.n()[c].value.ino] == kids0[j]
            } by {
                let c = kids0[j] as int;
                assert(c != cid as int) by {
                    if c == cid as int {
                        assert(pre.n()[cid as int].spec_parent() == Some(pre.m()[i]));
                        assert(pre.parent_ok(child_ino));
                        assert(pre.n()[cid as int].spec_parent() == Some(pid));
                        assert(pre.m()[i] == pid);
                        assert(i == parent_ino) by {
                            assert(pre.entry_ok(parent_ino));
                        }
                    }
                }
                assert(post.n()[c].value == pre.n()[c].value);
                assert(post.n()[c].spec_parent() == pre.n()[c].spec_parent()) by {
                    if c != pid as int {
                        assert(post.n()[c] == pre.n()[c]);
                    }
                }
                let ci = pre.n()[c].value.ino;
                assert(pre.m().contains_key(ci) && pre.m()[ci] == kids0[j]);
                assert(ci != child_ino);
            }
            assert forall|j: int, k: int|
                #![trigger kids0[j], kids0[k]]
                0 <= j < k < kids0.len() implies kids0[j] != kids0[k] && post.n()[
                kids0[j] as int
            ].value.name@ != post.n()[kids0[k] as int].value.name@ by {
                assert(post.n()[kids0[j] as int].value == pre.n()[kids0[j] as int].value);
                assert(post.n()[kids0[k] as int].value == pre.n()[kids0[k] as int].value);
            }
            assert(post.children_ok(i));
        }
    }
    assert(post.root_ok()) by {
        match post.tree.spec_root() {
            None => {
                assert(pre.root_ok());
            },
            Some(rt) => {
                assert(pre.root_ok());
                assert(rt != cid) by {
                    if rt == cid {
                        assert(pre.n()[cid as int].spec_parent() is None);
                        assert(pre.parent_ok(child_ino));
                    }
                }
                let ri = pre.n()[rt as int].value.ino;
                assert(ri != child_ino) by {
                    assert(pre.m()[ri] == rt);
                }
                assert(post.n()[rt as int].value == pre.n()[rt as int].value);
                assert(post.n()[rt as int].spec_parent() == pre.n()[rt as int].spec_parent()) by {
                    if rt != pid {
                        assert(post.n()[rt as int] == pre.n()[rt as int]);
                    }
                }
            },
        }
    }
    assert(post.wf());
}

/// A child with a matching name is the one `child_named` picks: sibling names
/// are unique.
pub proof fn lemma_child_named_unique(fs: TreeFs, p: u64, name: Seq<char>, c: u64)
    requires
        fs.wf(),
        fs.contains(p),
        fs.children(p).contains(c),
        fs.item(c).name@ == name,
    ensures
        fs.has_child_named(p, name),
        fs.child_named(p, name) == c,
{
    assert(fs.has_child_named(p, name));
    let c2 = fs.child_named(p, name);
    assert(fs.children(p).contains(c2) && fs.item(c2).name@ == name);
    let j = choose|j: int| 0 <= j < fs.children(p).len() && fs.children(p)[j] == c;
    let k = choose|k: int| 0 <= k < fs.children(p).len() && fs.children(p)[k] == c2;
    if j < k {
        lemma_sibling_names_unique(fs, p, j, k);
    } else if k < j {
        lemma_sibling_names_unique(fs, p, k, j);
    }
}

/// What holds of the child `child_named` picks, when one exists.
pub proof fn lemma_child_named_props(fs: TreeFs, p: u64, name: Seq<char>)
    requires
        fs.wf(),
        fs.contains(p),
        fs.has_child_named(p, name),
    ensures
        fs.children(p).contains(fs.child_named(p, name)),
        fs.contains(fs.child_named(p, name)),
        fs.item(fs.child_named(p, name)).name@ == name,
        fs.item(fs.child_named(p, name)).ino == fs.child_named(p, name),
        fs.parent(fs.child_named(p, name)) == Some(p),
        fs.child_named(p, name) != p,
        fs.item(p).is_dir,
{
    let c = fs.child_named(p, name);
    assert(fs.children(p).contains(c) && fs.item(c).name@ == name);
    let j = choose|j: int| 0 <= j < fs.children(p).len() && fs.children(p)[j] == c;
    lemma_children_linked(fs, p, j);
}

/// For every reachable item, the index maps its ino to it: reachability
/// implies presence in the index, and the indexed item carries that very ino.
pub proof fn lemma_reachable_indexed(fs: TreeFs, ino: u64)
    requires
        fs.wf(),
        fs.reachable(ino),
    ensures
        fs.contains(ino),
        fs.item(ino).ino == ino,
{
    assert(fs.entry_ok(ino));
}

proof fn lemma_indexed_reachable_rec(fs: TreeFs, ino: u64)
    requires
        fs.wf(),
        fs.contains(ino),
    ensures
        fs.reachable(ino),
    decreases fs.m()[ino],
{
    assert(fs.entry_ok(ino));
    assert(fs.parent_ok(ino));
    let id = fs.m()[ino] as int;
    match fs.n()[id].spec_parent() {
        None => {},
        Some(p) => {
            let pino = fs.n()[p as int].value.ino;
            lemma_indexed_reachable_rec(fs, pino);
        },
    }
}

/// The converse direction: every indexed item is reachable — its parent chain
/// ends at the root. Together with `lemma_reachable_indexed` this says the
/// index holds exactly the reachable items, one entry each.
pub proof fn lemma_indexed_reachable(fs: TreeFs, ino: u64)
    requires
        fs.wf(),
        fs.contains(ino),
    ensures
        fs.reachable(ino),
{
    lemma_indexed_reachable_rec(fs, ino);
}

/// Unfolds one step of reachability: a reachable item is the root or has a
/// reachable parent.
pub proof fn lemma_reachable_step(fs: TreeFs, ino: u64)
    requires
        fs.wf(),
        fs.reachable(ino),
    ensures
        fs.root_ino() == Some(ino) || (fs.parent(ino) is Some && fs.reachable(
            fs.parent(ino)->Some_0,
        )),
{
    assert(fs.entry_ok(ino));
    assert(fs.parent_ok(ino));
    let id = fs.m()[ino] as int;
    match fs.n()[id].spec_parent() {
        None => {
            assert(fs.root_ino() == Some(ino));
        },
        Some(p) => {
            let pino = fs.n()[p as int].value.ino;
            assert(fs.parent(ino) == Some(pino));
            lemma_indexed_reachable(fs, pino);
        },
    }
}

/// An indexed item carries its own ino and is internally coherent — in
/// particular its block count is its size rounded up to whole blocks.
pub proof fn lemma_item_coherent(fs: TreeFs, ino: u64)
    requires
        fs.wf(),
        fs.contains(ino),
    ensures
        fs.item(ino).ino == ino,
        item_wf(fs.item(ino)),
        fs.item(ino).attr.blocks == blocks_of(fs.item(ino).attr.size),
{
    assert(fs.entry_ok(ino));
}

/// Every child of a directory is itself indexed and points back to that
/// directory as its parent.
pub proof fn lemma_children_linked(fs: TreeFs, p: u64, j: int)
    requires
        fs.wf(),
        fs.contains(p),
        0 <= j < fs.children(p).len(),
    ensures
        fs.item(p).is_dir,
        fs.contains(fs.children(p)[j]),
        fs.item(fs.children(p)[j]).ino == fs.children(p)[j],
        fs.parent(fs.children(p)[j]) == Some(p),
        fs.children(p)[j] != p,
{
    assert(fs.entry_ok(p));
    assert(fs.children_ok(p));
    let id = fs.m()[p] as int;
    let kids = fs.n()[id].spec_children();
    let c = kids[j];
    let cino = fs.n()[c as int].value.ino;
    assert(fs.children(p)[j] == cino);
    assert(fs.m().contains_key(cino) && fs.m()[cino] == c);
    assert(fs.n()[c as int].spec_parent() == Some(fs.m()[p]));
    assert(fs.entry_ok(cino));
    assert(fs.parent(cino) == Some(fs.n()[id].value.ino));
    assert(fs.parent_ok(cino));
    assert(id < c as int);
    assert(fs.m()[cino] == c);
}

/// A regular file has no children.
pub proof fn lemma_file_no_children(fs: TreeFs, ino: u64)
    requires
        fs.wf(),
        fs.contains(ino),
        !fs.item(ino).is_dir,
    ensures
        fs.children(ino).len() == 0,
{
    assert(fs.entry_ok(ino));
    assert(fs.children_ok(ino));
}

/// Sibling names are unique within each directory, and so are sibling inos.
pub proof fn lemma_sibling_names_unique(fs: TreeFs, p: u64, j: int, k: int)
    requires
        fs.wf(),
        fs.contains(p),
        0 <= j < k < fs.children(p).len(),
    ensures
        fs.children(p)[j] != fs.children(p)[k],
        fs.item(fs.children(p)[j]).name@ != fs.item(fs.children(p)[k]).name@,
{
    assert(fs.entry_ok(p));
    assert(fs.children_ok(p));
    let id = fs.m()[p] as int;
    let kids = fs.n()[id].spec_children();
    assert(kids[j] != kids[k]);
    let cj = fs.n()[kids[j] as int].value.ino;
    let ck = fs.n()[kids[k] as int].value.ino;
    assert(fs.m().contains_key(cj) && fs.m()[cj] == kids[j]);
    assert(fs.m().contains_key(ck) && fs.m()[ck] == kids[k]);
    assert(cj != ck);
}

/// A live item with a parent stands in that parent's child list; the parent
/// is a live directory.
pub proof fn lemma_parent_linked(fs: TreeFs, c: u64)
    requires
        fs.wf(),
        fs.contains(c),
        fs.parent(c) is Some,
    ensures
        fs.contains(fs.parent(c)->Some_0),
        fs.item(fs.parent(c)->Some_0).is_dir,
        fs.children(fs.parent(c)->Some_0).contains(c),
{
    assert(fs.entry_ok(c));
    assert(fs.parent_ok(c));
    let id = fs.m()[c] as int;
    let p = fs.n()[id].spec_parent()->Some_0;
    let pino = fs.n()[p as int].value.ino;
    assert(fs.parent(c) == Some(pino));
    assert(fs.entry_ok(pino));
    assert(fs.children_ok(pino));
    let kids = fs.n()[p as int].spec_children();
    let j = choose|j: int| 0 <= j < kids.len() && kids[j] == fs.m()[c];
    assert(fs.children(pino)[j] == c);
    assert(fs.children(pino).contains(c));
}

/// What the root looks like while it exists, and that nothing is indexed
/// before one is set.
pub proof fn lemma_root_facts(fs: TreeFs)
    requires
        fs.wf(),
    ensures
        match fs.root_ino() {
            Some(r) => fs.contains(r) && fs.item(r).ino == r && fs.item(r).is_dir && fs.parent(r)
                is None,
            None => forall|i: u64| !fs.contains(i),
        },
{
    match fs.root_ino() {
        Some(r) => {
            assert(fs.root_ok());
        },
        None => {},
    }
}

} // verus!
