//! An arena-backed node store: the reference implementation of the
//! capability traits.

use vstd::prelude::*;

use crate::{Down, DownMut, TakeChild};

verus! {

/// An arena of nodes addressed by stable integer ids: the children of node
/// `id`, in order, are the ids listed under index `id`. Ids never move, so a
/// cursor frame can hold one across structural mutation; a detached subtree
/// keeps its nodes in the arena and merely becomes unreachable from the
/// root.
pub struct VecTree {
    nodes: Vec<Vec<usize>>,
}

impl View for VecTree {
    type V = Seq<Seq<usize>>;

    closed spec fn view(&self) -> Seq<Seq<usize>> {
        self.nodes@.map_values(|v: Vec<usize>| v@)
    }
}

impl VecTree {
    /// Which child, if any, sits at `idx` under the node `id`: the one
    /// answer both capability views give.
    pub open spec fn child_of(&self, id: usize, idx: usize) -> Option<usize> {
        if id < self@.len() && idx < self@[id as int].len() {
            Some(self@[id as int][idx as int])
        } else {
            None
        }
    }

    /// Every arena a `VecTree` can reach is globally valid: each child id
    /// names a node the arena holds, and no node lists the same child twice.
    /// `new` establishes this and every operation preserves it; it is what
    /// makes extraction final, since removing a child's one entry leaves it
    /// under no index of its parent.
    pub open spec fn wf(&self) -> bool {
        &&& forall|i: int| 0 <= i < self@.len() ==> (#[trigger] self@[i]).no_duplicates()
        &&& forall|i: int, j: int|
            0 <= i < self@.len() && 0 <= j < self@[i].len() ==> (#[trigger] self@[i][j])
                < self@.len()
    }

    /// A tree of one node: the root, with id zero and no children.
    pub fn new() -> (t: Self)
        ensures
            t@ == seq![Seq::<usize>::empty()],
            t.wf(),
    {
        let mut nodes: Vec<Vec<usize>> = Vec::new();
        let root: Vec<usize> = Vec::new();
        nodes.push(root);
        let t = VecTree { nodes };
        proof {
            assert(t@ =~= seq![Seq::<usize>::empty()]);
        }
        t
    }

    /// How many nodes the arena holds, detached ones included.
    pub fn node_count(&self) -> (n: usize)
        ensures
            n == self@.len(),
    {
        self.nodes.len()
    }

    /// How many children `id` has; an id the arena does not hold has none.
    pub fn child_count(&self, id: usize) -> (n: usize)
        ensures
            id < self@.len() ==> n == self@[id as int].len(),
            id >= self@.len() ==> n == 0,
    {
        if id < self.nodes.len() {
            self.nodes[id].len()
        } else {
            0
        }
    }

    /// Appends a fresh leaf to the arena and attaches it as the last child
    /// of `parent`, returning the new node's id.
    pub fn add_child(&mut self, parent: usize) -> (c: usize)
        requires
            old(self).wf(),
            parent < old(self)@.len(),
            old(self)@.len() < usize::MAX,
        ensures
            final(self).wf(),
            c == old(self)@.len(),
            final(self)@ == old(self)@.push(Seq::empty()).update(
                parent as int,
                old(self)@[parent as int].push(c),
            ),
    {
        let c = self.nodes.len();
        let leaf: Vec<usize> = Vec::new();
        self.nodes.push(leaf);
        let p = &mut self.nodes[parent];
        p.push(c);
        proof {
            assert(self@ =~= old(self)@.push(Seq::empty()).update(
                parent as int,
                old(self)@[parent as int].push(c),
            ));
            let o = old(self)@;
            let grown = o[parent as int].push(c);
            // The fresh id is larger than every id the old arena lists, so
            // attaching it keeps the parent's child list duplicate-free.
            assert forall|x: int, y: int| 0 <= x < y < grown.len() implies grown[x] != grown[y] by {
                if y < grown.len() - 1 {
                    assert(o[parent as int].no_duplicates());
                } else {
                    assert(o[parent as int][x] < o.len());
                }
            }
            assert(grown.no_duplicates());
        }
        c
    }
}

impl Down for VecTree {
    open spec fn child(&self, id: usize, idx: usize) -> Option<usize> {
        self.child_of(id, idx)
    }

    proof fn child_bound(&self, id: usize) {
        if (id as int) < self@.len() {
            let v = self.nodes@[id as int];
            vstd::std_specs::vec::axiom_spec_len(&v);
        }
    }

    fn down(&self, id: usize, idx: usize) -> (r: Option<usize>) {
        if id < self.nodes.len() {
            let ch = &self.nodes[id];
            if idx < ch.len() {
                Some(ch[idx])
            } else {
                None
            }
        } else {
            None
        }
    }
}

impl DownMut for VecTree {
    open spec fn child_mut(&self, id: usize, idx: usize) -> Option<usize> {
        self.child_of(id, idx)
    }

    proof fn child_mut_bound(&self, id: usize) {
        if (id as int) < self@.len() {
            let v = self.nodes@[id as int];
            vstd::std_specs::vec::axiom_spec_len(&v);
        }
    }

    fn down_mut(&mut self, id: usize, idx: usize) -> (r: Option<usize>) {
        if id < self.nodes.len() {
            let ch = &self.nodes[id];
            if idx < ch.len() {
                Some(ch[idx])
            } else {
                None
            }
        } else {
            None
        }
    }
}

impl TakeChild for VecTree {
    open spec fn store_wf(&self) -> bool {
        self.wf()
    }

    /// Detaches the child of `id` at `idx`: the later siblings close the gap
    /// by one index, every other node keeps its children, and the detached
    /// subtree stays in the arena under its old ids, unreachable from `id`.
    fn take_child(&mut self, id: usize, idx: usize) -> (c: usize)
        ensures
            final(self)@ == old(self)@.update(id as int, old(self)@[id as int].remove(idx as int)),
    {
        let p = &mut self.nodes[id];
        let c = p.remove(idx);
        proof {
            assert(self@ =~= old(self)@.update(
                id as int,
                old(self)@[id as int].remove(idx as int),
            ));
            let o = old(self)@;
            let shrunk = o[id as int].remove(idx as int);
            assert(o[id as int].no_duplicates());
            // Dropping one entry keeps the list duplicate-free: every pair of
            // surviving entries was already a pair of distinct old entries.
            assert forall|x: int, y: int| 0 <= x < y < shrunk.len() implies shrunk[x] != shrunk[y] by {
                assert(shrunk[x] == if x < idx {
                    o[id as int][x]
                } else {
                    o[id as int][x + 1]
                });
                assert(shrunk[y] == if y < idx {
                    o[id as int][y]
                } else {
                    o[id as int][y + 1]
                });
            }
            assert(shrunk.no_duplicates());
            // The one entry for the detached child is gone, so it sits under
            // no index of `id` any more.
            assert forall|j: usize| self.child_mut(id, j) != Some(c as usize) by {
                if id < self@.len() && (j as int) < self@[id as int].len() {
                    if (j as int) < idx {
                        assert(o[id as int][j as int] != o[id as int][idx as int]);
                    } else {
                        assert(o[id as int][j + 1] != o[id as int][idx as int]);
                    }
                }
            }
        }
        c
    }
}

/// The two capability views of a `VecTree` agree pointwise: shared and
/// exclusive descent resolve every (node, index) pair to the same child.
pub proof fn lemma_vec_tree_capabilities_agree(t: VecTree, id: usize, idx: usize)
    ensures
        Down::child(&t, id, idx) == DownMut::child_mut(&t, id, idx),
{
}

} // verus!
