//! A generic arena tree. Nodes live in one vector and are addressed by index;
//! parent links point back up, child lists keep insertion order. The tree
//! offers structural operations only — invariants such as name uniqueness are
//! the caller's to keep.

use vstd::prelude::*;

verus! {

/// One node: a payload, the indices of its children in insertion order, and
/// the index of its parent. The parent link is a plain index and owns nothing.
pub struct TreeNode<T> {
    pub value: T,
    pub children: Vec<usize>,
    pub parent: Option<usize>,
}

impl<T> TreeNode<T> {
    pub open spec fn spec_children(self) -> Seq<usize> {
        self.children@
    }

    pub open spec fn spec_parent(self) -> Option<usize> {
        self.parent
    }

    /// A detached node: no children, no parent.
    pub fn new(value: T) -> (r: TreeNode<T>)
        ensures
            r.value == value,
            r.spec_children() == Seq::<usize>::empty(),
            r.spec_parent() is None,
    {
        TreeNode { value, children: Vec::new(), parent: None }
    }

    pub fn get_parent(&self) -> (r: Option<usize>)
        ensures
            r == self.spec_parent(),
    {
        self.parent
    }

    /// The child indices, in insertion order.
    pub fn iter(&self) -> (r: &Vec<usize>)
        ensures
            r@ == self.spec_children(),
    {
        &self.children
    }

    /// Mutable access to the child indices; payload and parent stay as they
    /// were.
    pub fn iter_mut(&mut self) -> (r: &mut Vec<usize>)
        ensures
            r@ == old(self).spec_children(),
            final(self).spec_children() == final(r)@,
            final(self).value == old(self).value,
            final(self).spec_parent() == old(self).spec_parent(),
    {
        &mut self.children
    }

    /// Consumes the node and hands out its child indices.
    pub fn into_iter(self) -> (r: Vec<usize>)
        ensures
            r@ == self.spec_children(),
    {
        self.children
    }
}

/// The arena: all nodes ever created, and the index of the root if one was
/// set. Removing a child only detaches it; its slot is never reused.
pub struct Tree<T> {
    pub nodes: Vec<TreeNode<T>>,
    pub root: Option<usize>,
}

impl<T> Tree<T> {
    pub open spec fn spec_nodes(self) -> Seq<TreeNode<T>> {
        self.nodes@
    }

    pub open spec fn spec_root(self) -> Option<usize> {
        self.root
    }

    pub fn new() -> (r: Tree<T>)
        ensures
            r.spec_nodes() == Seq::<TreeNode<T>>::empty(),
            r.spec_root() is None,
    {
        Tree { nodes: Vec::new(), root: None }
    }

    /// Adds the node to the arena and makes it the root; returns its index.
    pub fn set_root(&mut self, node: TreeNode<T>) -> (id: usize)
        ensures
            id == old(self).spec_nodes().len(),
            final(self).spec_nodes() == old(self).spec_nodes().push(node),
            final(self).spec_root() == Some(id),
    {
        let id = self.nodes.len();
        self.nodes.push(node);
        self.root = Some(id);
        id
    }

    pub fn get_root(&self) -> (r: Option<usize>)
        ensures
            r == self.spec_root(),
    {
        self.root
    }

    pub fn node_count(&self) -> (r: usize)
        ensures
            r == self.spec_nodes().len(),
    {
        self.nodes.len()
    }

    /// Read access to a node.
    pub fn get(&self, id: usize) -> (r: &TreeNode<T>)
        requires
            id < self.spec_nodes().len(),
        ensures
            *r == self.spec_nodes()[id as int],
    {
        &self.nodes[id]
    }

    /// Mutable access to a node's payload; the structure stays as it was.
    pub fn value_mut(&mut self, id: usize) -> (r: &mut T)
        requires
            id < old(self).spec_nodes().len(),
        ensures
            *r == old(self).spec_nodes()[id as int].value,
            final(self).spec_root() == old(self).spec_root(),
            final(self).spec_nodes().len() == old(self).spec_nodes().len(),
            final(self).spec_nodes()[id as int].value == *final(r),
            final(self).spec_nodes()[id as int].spec_children() == old(self).spec_nodes()[id as int].spec_children(),
            final(self).spec_nodes()[id as int].spec_parent() == old(self).spec_nodes()[id as int].spec_parent(),
            forall|j: int|
                0 <= j < old(self).spec_nodes().len() && j != id ==> final(self).spec_nodes()[j]
                    == old(self).spec_nodes()[j],
    {
        &mut self.nodes[id].value
    }

    /// Adds the node to the arena as the last child of `parent`, setting its
    /// parent link; returns its index, which is larger than every index so far.
    pub fn push_child(&mut self, parent: usize, node: TreeNode<T>) -> (id: usize)
        requires
            parent < old(self).spec_nodes().len(),
        ensures
            id == old(self).spec_nodes().len(),
            final(self).spec_root() == old(self).spec_root(),
            final(self).spec_nodes().len() == old(self).spec_nodes().len() + 1,
            final(self).spec_nodes()[id as int].value == node.value,
            final(self).spec_nodes()[id as int].spec_children() == node.spec_children(),
            final(self).spec_nodes()[id as int].spec_parent() == Some(parent),
            final(self).spec_nodes()[parent as int].value == old(self).spec_nodes()[parent as int].value,
            final(self).spec_nodes()[parent as int].spec_parent() == old(self).spec_nodes()[parent as int].spec_parent(),
            final(self).spec_nodes()[parent as int].spec_children() == old(self).spec_nodes()[parent as int].spec_children().push(id),
            forall|j: int|
                0 <= j < old(self).spec_nodes().len() && j != parent ==> final(self).spec_nodes()[j]
                    == old(self).spec_nodes()[j],
    {
        let id = self.nodes.len();
        let mut node = node;
        node.parent = Some(parent);
        self.nodes.push(node);
        self.nodes[parent].children.push(id);
        id
    }

    /// Detaches `child` from `parent`: removes its one occurrence from the
    /// child list and clears its parent link. Returns the position the child
    /// held among its siblings.
    pub fn remove_child(&mut self, parent: usize, child: usize) -> (idx: usize)
        requires
            parent < old(self).spec_nodes().len(),
            child < old(self).spec_nodes().len(),
            parent != child,
            old(self).spec_nodes()[parent as int].spec_children().contains(child),
        ensures
            idx < old(self).spec_nodes()[parent as int].spec_children().len(),
            old(self).spec_nodes()[parent as int].spec_children()[idx as int] == child,
            final(self).spec_root() == old(self).spec_root(),
            final(self).spec_nodes().len() == old(self).spec_nodes().len(),
            final(self).spec_nodes()[parent as int].value == old(self).spec_nodes()[parent as int].value,
            final(self).spec_nodes()[parent as int].spec_parent() == old(self).spec_nodes()[parent as int].spec_parent(),
            final(self).spec_nodes()[parent as int].spec_children() == old(self).spec_nodes()[parent as int].spec_children().remove(idx as int),
            final(self).spec_nodes()[child as int].value == old(self).spec_nodes()[child as int].value,
            final(self).spec_nodes()[child as int].spec_children() == old(self).spec_nodes()[child as int].spec_children(),
            final(self).spec_nodes()[child as int].spec_parent() is None,
            forall|j: int|
                0 <= j < old(self).spec_nodes().len() && j != parent && j != child
                    ==> final(self).spec_nodes()[j] == old(self).spec_nodes()[j],
    {
        let ghost snap = *self;
        let ghost kids = self.nodes@[parent as int].children@;
        proof {
            assert(kids.contains(child));
            let i = choose|i: int| 0 <= i < kids.len() && kids[i] == child;
            assert(0 <= i < kids.len() && kids[i] == child);
        }
        let mut idx: usize = 0;
        while self.nodes[parent].children[idx] != child
            invariant
                *self == snap,
                parent < self.nodes@.len(),
                child < self.nodes@.len(),
                kids == self.nodes@[parent as int].children@,
                idx < kids.len(),
                exists|i: int| #![trigger kids[i]] idx <= i < kids.len() && kids[i] == child,
            decreases kids.len() - idx,
        {
            let len = self.nodes[parent].children.len();
            proof {
                let i = choose|i: int| idx <= i < kids.len() && kids[i] == child;
                assert(idx + 1 <= i < kids.len() && kids[i] == child);
            }
            idx = idx + 1;
        }
        self.nodes[parent].children.remove(idx);
        self.nodes[child].parent = None;
        idx
    }
}

} // verus!
