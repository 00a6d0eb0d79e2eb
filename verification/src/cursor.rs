//! The two cursor kinds, their position snapshots, and the laws that govern
//! them.
//!
//! A cursor is a stack of [`Frame`]s: the path from the root it was created
//! at down to the active node, each frame carrying the index of the next
//! child to try under that node. The stack is never empty, and every frame
//! below the top has a counter of at least one, since a descent was taken
//! from it.

use vstd::prelude::*;

use crate::{Down, DownMut, TakeChild};

verus! {

/// One depth level of a cursor's path: the node it rests on, and the index of
/// the next child to try under that node.
#[derive(Clone, Copy, Debug, Eq, Hash, PartialEq)]
pub struct Frame {
    /// Id of the node this frame rests on.
    pub node: usize,
    /// Index of the next child to try under `node`.
    pub count: usize,
}

/// The shape every cursor stack keeps: never empty, and every frame below the
/// top has taken at least one descent, so its counter is at least one.
pub open spec fn stack_wf(s: Seq<Frame>) -> bool {
    &&& s.len() >= 1
    &&& forall|i: int| 0 <= i < s.len() - 1 ==> (#[trigger] s[i]).count >= 1
}

/// The stack after a successful descent to child `c`: the old top's counter
/// moves past the child just taken, and a fresh frame for `c` is pushed.
pub open spec fn down_frames(s: Seq<Frame>, c: usize) -> Seq<Frame> {
    s.update(
        s.len() - 1,
        Frame { node: s.last().node, count: (s.last().count + 1) as usize },
    ).push(Frame { node: c, count: 0 })
}

/// The stack after `up`: the top frame is popped, except at the root, where
/// the root frame stays and its counter is reset to zero.
pub open spec fn up_frames(s: Seq<Frame>) -> Seq<Frame> {
    if s.len() <= 1 {
        seq![Frame { node: s[0].node, count: 0 }]
    } else {
        s.drop_last()
    }
}

/// The stack after `zero`: the top frame's counter is reset to zero.
pub open spec fn zero_frames(s: Seq<Frame>) -> Seq<Frame> {
    s.update(s.len() - 1, Frame { node: s.last().node, count: 0 })
}

/// Read-only stack-based navigation over a node store.
#[derive(Clone, Debug, Eq, Hash, PartialEq)]
pub struct TreeCursor {
    stack: Vec<Frame>,
}

impl View for TreeCursor {
    type V = Seq<Frame>;

    closed spec fn view(&self) -> Seq<Frame> {
        self.stack@
    }
}

impl TreeCursor {
    /// Well-formedness: established by `new` and kept by every operation.
    pub open spec fn wf(&self) -> bool {
        stack_wf(self@)
    }

    /// Id of the active node: the node the top frame rests on.
    pub open spec fn active(&self) -> usize {
        self@.last().node
    }

    /// A cursor whose single frame rests on `root` with its counter at zero.
    pub fn new(root: usize) -> (c: Self)
        ensures
            c.wf(),
            c@ == seq![Frame { node: root, count: 0 }],
    {
        let mut stack: Vec<Frame> = Vec::new();
        stack.push(Frame { node: root, count: 0 });
        proof {
            assert(stack@ =~= seq![Frame { node: root, count: 0 }]);
        }
        TreeCursor { stack }
    }

    /// The active node. Never fails: the stack is never empty.
    pub fn get(&self) -> (id: usize)
        requires
            self.wf(),
        ensures
            id == self.active(),
    {
        self.stack[self.stack.len() - 1].node
    }

    /// Replaces the top frame, leaving the rest of the stack alone.
    fn set_top(&mut self, f: Frame)
        requires
            old(self).wf(),
        ensures
            final(self)@ == old(self)@.update(old(self)@.len() - 1, f),
    {
        let ghost s = self.stack@;
        self.stack.pop();
        self.stack.push(f);
        proof {
            assert(self.stack@ =~= s.update(s.len() - 1, f));
        }
    }

    /// Looks up the child at the top frame's counter and, on success, moves
    /// the counter past it. The caller decides what to do with the child id.
    fn probe<T: Down>(&mut self, tree: &T) -> (r: Option<usize>)
        requires
            old(self).wf(),
        ensures
            final(self).wf(),
            r == tree.child(old(self)@.last().node, old(self)@.last().count),
            r is Some ==> old(self)@.last().count < usize::MAX,
            r is Some ==> final(self)@ == old(self)@.update(
                old(self)@.len() - 1,
                Frame {
                    node: old(self)@.last().node,
                    count: (old(self)@.last().count + 1) as usize,
                },
            ),
            r is None ==> final(self)@ == old(self)@,
    {
        let top = self.stack[self.stack.len() - 1];
        match tree.down(top.node, top.count) {
            Some(c) => {
                proof {
                    tree.child_bound(top.node);
                }
                self.set_top(Frame { node: top.node, count: top.count + 1 });
                Some(c)
            },
            None => None,
        }
    }

    /// Descends to the child at the top frame's counter, as the store
    /// resolves it. On success the old frame's counter moves past the child
    /// and a fresh frame for the child is pushed; on failure nothing changes.
    pub fn down<T: Down>(&mut self, tree: &T) -> (r: bool)
        requires
            old(self).wf(),
        ensures
            final(self).wf(),
            match tree.child(old(self)@.last().node, old(self)@.last().count) {
                Some(c) => r && final(self)@ == down_frames(old(self)@, c),
                None => !r && final(self)@ == old(self)@,
            },
    {
        match self.probe(tree) {
            Some(c) => {
                self.stack.push(Frame { node: c, count: 0 });
                true
            },
            None => false,
        }
    }

    /// Like `down`, but the child is chosen by the selector `f` from the
    /// active node's id and the top frame's counter, instead of by the store.
    /// The counter bound is a machine limit: a selector, unlike a store, is
    /// not held to leave index `usize::MAX` childless.
    pub fn down_with<F: Fn(usize, usize) -> Option<usize>>(&mut self, f: F) -> (r: bool)
        requires
            old(self).wf(),
            call_requires(f, (old(self)@.last().node, old(self)@.last().count)),
            old(self)@.last().count < usize::MAX,
        ensures
            final(self).wf(),
            r ==> final(self)@ == down_frames(old(self)@, final(self)@.last().node)
                && call_ensures(
                f,
                (old(self)@.last().node, old(self)@.last().count),
                Some(final(self)@.last().node),
            ),
            !r ==> final(self)@ == old(self)@ && call_ensures(
                f,
                (old(self)@.last().node, old(self)@.last().count),
                None::<usize>,
            ),
    {
        let top = self.stack[self.stack.len() - 1];
        match f(top.node, top.count) {
            Some(c) => {
                self.set_top(Frame { node: top.node, count: top.count + 1 });
                self.stack.push(Frame { node: c, count: 0 });
                true
            },
            None => false,
        }
    }

    /// Moves one frame toward the root. At the root it fails instead, and the
    /// root frame's counter is reset to zero; either way the frame being left
    /// behaves as if `zero` had been called on it.
    pub fn up(&mut self) -> (r: bool)
        requires
            old(self).wf(),
        ensures
            final(self).wf(),
            r == (old(self)@.len() > 1),
            final(self)@ == up_frames(old(self)@),
    {
        if self.stack.len() == 1 {
            let root = self.stack[0];
            self.set_top(Frame { node: root.node, count: 0 });
            proof {
                assert(self@ =~= up_frames(old(self)@));
            }
            false
        } else {
            self.stack.pop();
            proof {
                assert(self@ =~= up_frames(old(self)@));
            }
            true
        }
    }

    /// Resets the top frame's counter to zero without moving.
    pub fn zero(&mut self)
        requires
            old(self).wf(),
        ensures
            final(self).wf(),
            final(self)@ == zero_frames(old(self)@),
    {
        let top = self.stack[self.stack.len() - 1];
        self.set_top(Frame { node: top.node, count: 0 });
    }

    /// Like `down`, but instead of deepening this cursor it returns a new,
    /// independently addressable cursor rooted at the child; this cursor only
    /// has its counter moved past that child.
    pub fn split_below<T: Down>(&mut self, tree: &T) -> (r: Option<TreeCursor>)
        requires
            old(self).wf(),
        ensures
            final(self).wf(),
            match tree.child(old(self)@.last().node, old(self)@.last().count) {
                Some(c) => {
                    &&& r matches Some(nc) && nc.wf() && nc@ == seq![
                        Frame { node: c, count: 0 },
                    ]
                    &&& final(self)@ == old(self)@.update(
                        old(self)@.len() - 1,
                        Frame {
                            node: old(self)@.last().node,
                            count: (old(self)@.last().count + 1) as usize,
                        },
                    )
                },
                None => r is None && final(self)@ == old(self)@,
            },
    {
        match self.probe(tree) {
            Some(c) => Some(TreeCursor::new(c)),
            None => None,
        }
    }

    /// Like `down_with`, but returns a new cursor rooted at the selected
    /// child, as `split_below` does.
    pub fn split_below_with<F: Fn(usize, usize) -> Option<usize>>(&mut self, f: F) -> (r: Option<
        TreeCursor,
    >)
        requires
            old(self).wf(),
            call_requires(f, (old(self)@.last().node, old(self)@.last().count)),
            old(self)@.last().count < usize::MAX,
        ensures
            final(self).wf(),
            r matches Some(nc) ==> nc.wf() && nc@ == seq![
                Frame { node: nc@.last().node, count: 0 },
            ] && final(self)@ == old(self)@.update(
                old(self)@.len() - 1,
                Frame {
                    node: old(self)@.last().node,
                    count: (old(self)@.last().count + 1) as usize,
                },
            ) && call_ensures(
                f,
                (old(self)@.last().node, old(self)@.last().count),
                Some(nc@.last().node),
            ),
            r is None ==> final(self)@ == old(self)@ && call_ensures(
                f,
                (old(self)@.last().node, old(self)@.last().count),
                None::<usize>,
            ),
    {
        let top = self.stack[self.stack.len() - 1];
        match f(top.node, top.count) {
            Some(c) => {
                self.set_top(Frame { node: top.node, count: top.count + 1 });
                Some(TreeCursor::new(c))
            },
            None => None,
        }
    }

    /// Hands the frame above the active node off as a new cursor, counter
    /// included, popping it from this cursor. At the root there is no frame
    /// above, and the call fails.
    pub fn split_above(&mut self) -> (r: Option<TreeCursor>)
        requires
            old(self).wf(),
        ensures
            final(self).wf(),
            old(self)@.len() == 1 ==> r is None && final(self)@ == old(self)@,
            old(self)@.len() > 1 ==> (r matches Some(nc) && nc.wf() && nc@ == seq![
                old(self)@.last(),
            ] && final(self)@ == old(self)@.drop_last()),
    {
        if self.stack.len() == 1 {
            None
        } else {
            let top = self.stack[self.stack.len() - 1];
            self.stack.pop();
            let mut stack: Vec<Frame> = Vec::new();
            stack.push(top);
            proof {
                assert(self@ =~= old(self)@.drop_last());
                assert(stack@ =~= seq![old(self)@.last()]);
            }
            Some(TreeCursor { stack })
        }
    }
}

/// Why a position could not be restored.
#[derive(Clone, Copy, Debug, PartialEq, Eq, Structural)]
pub enum SetPosError {
    /// An intermediate descent found no child at a recorded index: the tree
    /// was structurally pruned since the position was captured.
    MissingNode,
}

/// A path snapshot: the counter of every frame of a cursor's stack, root
/// first. It carries no node identity, so it stays valid exactly as long as
/// the same index path still resolves to existing nodes.
pub struct TreeCursorPos {
    counts: Vec<usize>,
}

impl View for TreeCursorPos {
    type V = Seq<usize>;

    closed spec fn view(&self) -> Seq<usize> {
        self.counts@
    }
}

impl TreeCursorPos {
    /// The shape of any captured position: one counter per depth, and every
    /// counter but the last at least one, since a descent was taken from
    /// every frame below the top.
    pub open spec fn wf(&self) -> bool {
        &&& self@.len() >= 1
        &&& forall|i: int| 0 <= i < self@.len() - 1 ==> (#[trigger] self@[i]) >= 1
    }
}

/// The counters of a stack, root first: what `pos` captures.
pub open spec fn counts_of(s: Seq<Frame>) -> Seq<usize> {
    s.map_values(|f: Frame| f.count)
}

/// The stack that restoring the counters `p` from the node `root` yields:
/// every counter but the last is replayed by descending to the child at that
/// counter minus one, and the last is written into the top frame without a
/// descent. `None` when some replayed descent finds no child.
pub open spec fn replay<T: DownMut>(t: T, root: usize, p: Seq<usize>) -> Option<Seq<Frame>>
    decreases p.len(),
{
    if p.len() <= 1 {
        Some(seq![Frame { node: root, count: if p.len() == 1 { p[0] } else { 0 } }])
    } else if p[0] == 0 {
        None
    } else {
        match t.child_mut(root, (p[0] - 1) as usize) {
            Some(c) => match replay(t, c, p.skip(1)) {
                Some(rest) => Some(seq![Frame { node: root, count: p[0] }] + rest),
                None => None,
            },
            None => None,
        }
    }
}

/// Exclusive navigation and mutation over a node store. A superset of
/// [`TreeCursor`]: it borrows the store mutably at every call, so while it
/// works no other reference into the tree is live. Splitting a cursor off
/// it suspends it — see [`TreeCursorMut::suspended`] — so that the one
/// exclusive slot is held by a single cursor at any time.
#[derive(Debug, Eq, Hash, PartialEq)]
pub struct TreeCursorMut {
    stack: Vec<Frame>,
    frozen: bool,
}

impl View for TreeCursorMut {
    type V = Seq<Frame>;

    closed spec fn view(&self) -> Seq<Frame> {
        self.stack@
    }
}

impl TreeCursorMut {
    /// Well-formedness: established by `new` and kept by every operation.
    pub open spec fn wf(&self) -> bool {
        stack_wf(self@)
    }

    /// Id of the active node: the node the top frame rests on.
    pub open spec fn active(&self) -> usize {
        self@.last().node
    }

    /// Whether this cursor is suspended: a cursor split off from it is still
    /// outstanding, holding the exclusive slot for the subtree they share.
    /// While suspended, every operation but `resume` is ruled out, so no two
    /// overlapping writers can coexist; `resume` consumes the derived cursor
    /// and lifts the suspension.
    pub closed spec fn suspended(&self) -> bool {
        self.frozen
    }

    /// Whether this cursor is suspended by an outstanding split.
    pub fn is_suspended(&self) -> (r: bool)
        ensures
            r == self.suspended(),
    {
        self.frozen
    }

    /// A cursor whose single frame rests on `root` with its counter at zero,
    /// not suspended.
    pub fn new(root: usize) -> (c: Self)
        ensures
            c.wf(),
            c@ == seq![Frame { node: root, count: 0 }],
            !c.suspended(),
    {
        let mut stack: Vec<Frame> = Vec::new();
        stack.push(Frame { node: root, count: 0 });
        proof {
            assert(stack@ =~= seq![Frame { node: root, count: 0 }]);
        }
        TreeCursorMut { stack, frozen: false }
    }

    /// The active node. Never fails: the stack is never empty.
    pub fn get(&self) -> (id: usize)
        requires
            self.wf(),
            !self.suspended(),
        ensures
            id == self.active(),
    {
        self.stack[self.stack.len() - 1].node
    }

    /// The active node, for exclusive use: the same node `get` reports. The
    /// receiver is borrowed mutably as the one live handle on the tree, but
    /// nothing is changed.
    pub fn get_mut(&mut self) -> (id: usize)
        requires
            old(self).wf(),
            !old(self).suspended(),
        ensures
            *final(self) == *old(self),
            id == old(self).active(),
    {
        self.stack[self.stack.len() - 1].node
    }

    /// Replaces the top frame, leaving the rest of the stack alone.
    fn set_top(&mut self, f: Frame)
        requires
            old(self).wf(),
        ensures
            final(self)@ == old(self)@.update(old(self)@.len() - 1, f),
            final(self).suspended() == old(self).suspended(),
    {
        let ghost s = self.stack@;
        self.stack.pop();
        self.stack.push(f);
        proof {
            assert(self.stack@ =~= s.update(s.len() - 1, f));
        }
    }

    /// Looks up the child at the top frame's counter and, on success, moves
    /// the counter past it. The caller decides what to do with the child id.
    fn probe<T: DownMut>(&mut self, tree: &mut T) -> (r: Option<usize>)
        requires
            old(self).wf(),
        ensures
            final(self).wf(),
            final(self).suspended() == old(self).suspended(),
            *final(tree) == *old(tree),
            r == old(tree).child_mut(old(self)@.last().node, old(self)@.last().count),
            r is Some ==> old(self)@.last().count < usize::MAX,
            r is Some ==> final(self)@ == old(self)@.update(
                old(self)@.len() - 1,
                Frame {
                    node: old(self)@.last().node,
                    count: (old(self)@.last().count + 1) as usize,
                },
            ),
            r is None ==> final(self)@ == old(self)@,
    {
        let top = self.stack[self.stack.len() - 1];
        match tree.down_mut(top.node, top.count) {
            Some(c) => {
                proof {
                    tree.child_mut_bound(top.node);
                }
                self.set_top(Frame { node: top.node, count: top.count + 1 });
                Some(c)
            },
            None => None,
        }
    }

    /// Descends to the child at the top frame's counter, as the store
    /// resolves it for exclusive use. On success the old frame's counter
    /// moves past the child and a fresh frame for the child is pushed; on
    /// failure nothing changes. The lookup leaves the tree as it was.
    pub fn down<T: DownMut>(&mut self, tree: &mut T) -> (r: bool)
        requires
            old(self).wf(),
            !old(self).suspended(),
        ensures
            final(self).wf(),
            !final(self).suspended(),
            *final(tree) == *old(tree),
            match old(tree).child_mut(old(self)@.last().node, old(self)@.last().count) {
                Some(c) => r && final(self)@ == down_frames(old(self)@, c),
                None => !r && final(self)@ == old(self)@,
            },
    {
        match self.probe(tree) {
            Some(c) => {
                self.stack.push(Frame { node: c, count: 0 });
                true
            },
            None => false,
        }
    }

    /// Like `down`, but the child is chosen by the selector `f` from the
    /// active node's id and the top frame's counter, instead of by the store.
    /// The counter bound is a machine limit: a selector, unlike a store, is
    /// not held to leave index `usize::MAX` childless.
    pub fn down_with<F: Fn(usize, usize) -> Option<usize>>(&mut self, f: F) -> (r: bool)
        requires
            old(self).wf(),
            !old(self).suspended(),
            call_requires(f, (old(self)@.last().node, old(self)@.last().count)),
            old(self)@.last().count < usize::MAX,
        ensures
            final(self).wf(),
            !final(self).suspended(),
            r ==> final(self)@ == down_frames(old(self)@, final(self)@.last().node)
                && call_ensures(
                f,
                (old(self)@.last().node, old(self)@.last().count),
                Some(final(self)@.last().node),
            ),
            !r ==> final(self)@ == old(self)@ && call_ensures(
                f,
                (old(self)@.last().node, old(self)@.last().count),
                None::<usize>,
            ),
    {
        let top = self.stack[self.stack.len() - 1];
        match f(top.node, top.count) {
            Some(c) => {
                self.set_top(Frame { node: top.node, count: top.count + 1 });
                self.stack.push(Frame { node: c, count: 0 });
                true
            },
            None => false,
        }
    }

    /// Moves one frame toward the root. At the root it fails instead, and the
    /// root frame's counter is reset to zero; either way the frame being left
    /// behaves as if `zero` had been called on it.
    pub fn up(&mut self) -> (r: bool)
        requires
            old(self).wf(),
            !old(self).suspended(),
        ensures
            final(self).wf(),
            !final(self).suspended(),
            r == (old(self)@.len() > 1),
            final(self)@ == up_frames(old(self)@),
    {
        if self.stack.len() == 1 {
            let root = self.stack[0];
            self.set_top(Frame { node: root.node, count: 0 });
            proof {
                assert(self@ =~= up_frames(old(self)@));
            }
            false
        } else {
            self.stack.pop();
            proof {
                assert(self@ =~= up_frames(old(self)@));
            }
            true
        }
    }

    /// Resets the top frame's counter to zero without moving.
    pub fn zero(&mut self)
        requires
            old(self).wf(),
            !old(self).suspended(),
        ensures
            final(self).wf(),
            !final(self).suspended(),
            final(self)@ == zero_frames(old(self)@),
    {
        let top = self.stack[self.stack.len() - 1];
        self.set_top(Frame { node: top.node, count: 0 });
    }

    /// Like `down`, but instead of deepening this cursor it returns a new,
    /// independently addressable cursor rooted at the child; this cursor only
    /// has its counter moved past that child. On success the exclusive slot
    /// moves to the returned cursor and this one is suspended until `resume`
    /// hands the derived cursor back.
    pub fn split_below<T: DownMut>(&mut self, tree: &mut T) -> (r: Option<TreeCursorMut>)
        requires
            old(self).wf(),
            !old(self).suspended(),
        ensures
            final(self).wf(),
            *final(tree) == *old(tree),
            final(self).suspended() == (r is Some),
            match old(tree).child_mut(old(self)@.last().node, old(self)@.last().count) {
                Some(c) => {
                    &&& r matches Some(nc) && nc.wf() && !nc.suspended() && nc@ == seq![
                        Frame { node: c, count: 0 },
                    ]
                    &&& final(self)@ == old(self)@.update(
                        old(self)@.len() - 1,
                        Frame {
                            node: old(self)@.last().node,
                            count: (old(self)@.last().count + 1) as usize,
                        },
                    )
                },
                None => r is None && final(self)@ == old(self)@,
            },
    {
        match self.probe(tree) {
            Some(c) => {
                self.frozen = true;
                Some(TreeCursorMut::new(c))
            },
            None => None,
        }
    }

    /// Like `down_with`, but returns a new cursor rooted at the selected
    /// child, as `split_below` does, suspending this cursor the same way.
    pub fn split_below_with<F: Fn(usize, usize) -> Option<usize>>(&mut self, f: F) -> (r: Option<
        TreeCursorMut,
    >)
        requires
            old(self).wf(),
            !old(self).suspended(),
            call_requires(f, (old(self)@.last().node, old(self)@.last().count)),
            old(self)@.last().count < usize::MAX,
        ensures
            final(self).wf(),
            final(self).suspended() == (r is Some),
            r matches Some(nc) ==> nc.wf() && !nc.suspended() && nc@ == seq![
                Frame { node: nc@.last().node, count: 0 },
            ] && final(self)@ == old(self)@.update(
                old(self)@.len() - 1,
                Frame {
                    node: old(self)@.last().node,
                    count: (old(self)@.last().count + 1) as usize,
                },
            ) && call_ensures(
                f,
                (old(self)@.last().node, old(self)@.last().count),
                Some(nc@.last().node),
            ),
            r is None ==> final(self)@ == old(self)@ && call_ensures(
                f,
                (old(self)@.last().node, old(self)@.last().count),
                None::<usize>,
            ),
    {
        let top = self.stack[self.stack.len() - 1];
        match f(top.node, top.count) {
            Some(c) => {
                self.set_top(Frame { node: top.node, count: top.count + 1 });
                self.frozen = true;
                Some(TreeCursorMut::new(c))
            },
            None => None,
        }
    }

    /// Hands the frame above the active node off as a new cursor, counter
    /// included, popping it from this cursor. At the root there is no frame
    /// above, and the call fails. On success the exclusive slot moves to the
    /// returned cursor and this one is suspended until `resume` hands the
    /// derived cursor back.
    pub fn split_above(&mut self) -> (r: Option<TreeCursorMut>)
        requires
            old(self).wf(),
            !old(self).suspended(),
        ensures
            final(self).wf(),
            final(self).suspended() == (r is Some),
            old(self)@.len() == 1 ==> r is None && final(self)@ == old(self)@,
            old(self)@.len() > 1 ==> (r matches Some(nc) && nc.wf() && !nc.suspended() && nc@
                == seq![old(self)@.last()] && final(self)@ == old(self)@.drop_last()),
    {
        if self.stack.len() == 1 {
            None
        } else {
            let top = self.stack[self.stack.len() - 1];
            self.stack.pop();
            self.frozen = true;
            let mut stack: Vec<Frame> = Vec::new();
            stack.push(top);
            proof {
                assert(self@ =~= old(self)@.drop_last());
                assert(stack@ =~= seq![old(self)@.last()]);
            }
            Some(TreeCursorMut { stack, frozen: false })
        }
    }

    /// Discards a derived cursor and lifts this cursor's suspension: the
    /// exclusive slot returns here. The derived cursor is consumed; it must
    /// not itself be suspended, or a cursor split off from it would still be
    /// outstanding.
    pub fn resume(&mut self, derived: TreeCursorMut)
        requires
            old(self).suspended(),
            !derived.suspended(),
        ensures
            final(self)@ == old(self)@,
            !final(self).suspended(),
    {
        let _ = derived;
        self.frozen = false;
    }

    /// A read-only snapshot of the current path, as a shared cursor over the
    /// same frames. The snapshot must not be read once this cursor mutates
    /// the tree again: take it, use it, drop it.
    pub fn as_cursor(&self) -> (c: TreeCursor)
        requires
            self.wf(),
            !self.suspended(),
        ensures
            c.wf(),
            c@ == self@,
    {
        let mut stack: Vec<Frame> = Vec::new();
        let mut i: usize = 0;
        while i < self.stack.len()
            invariant
                0 <= i <= self.stack@.len(),
                stack@ == self.stack@.take(i as int),
            decreases self.stack@.len() - i,
        {
            stack.push(self.stack[i]);
            proof {
                assert(stack@ =~= self.stack@.take(i + 1));
            }
            i += 1;
        }
        proof {
            assert(stack@ =~= self.stack@);
        }
        TreeCursor { stack }
    }

    /// Detaches the child the cursor just left: moves up one frame, walks the
    /// new top's counter back over the vacated child, and takes that child
    /// out of the store, after which it sits under no index of the former
    /// parent — later traversal of the parent no longer reaches it. At the
    /// root there is nothing above to take from, and the call fails with the
    /// cursor merely zeroed as by a failed `up`. Beyond losing that child
    /// the store is left as its `take_child` leaves it.
    pub fn take_node<T: TakeChild>(&mut self, tree: &mut T) -> (r: Option<usize>)
        requires
            old(self).wf(),
            !old(self).suspended(),
            old(self)@.len() > 1 ==> old(tree).store_wf(),
            old(self)@.len() > 1 ==> old(tree).child_mut(
                old(self)@[old(self)@.len() - 2].node,
                (old(self)@[old(self)@.len() - 2].count - 1) as usize,
            ) is Some,
        ensures
            final(self).wf(),
            !final(self).suspended(),
            old(self)@.len() == 1 ==> r is None && final(self)@ == up_frames(old(self)@)
                && *final(tree) == *old(tree),
            old(self)@.len() > 1 ==> ({
                let parent = old(self)@[old(self)@.len() - 2];
                &&& r == old(tree).child_mut(parent.node, (parent.count - 1) as usize)
                &&& final(tree).store_wf()
                &&& forall|j: usize| final(tree).child_mut(parent.node, j) != r
                &&& final(self)@ == old(self)@.drop_last().update(
                    old(self)@.len() - 2,
                    Frame { node: parent.node, count: (parent.count - 1) as usize },
                )
            }),
    {
        if self.stack.len() == 1 {
            let root = self.stack[0];
            self.set_top(Frame { node: root.node, count: 0 });
            proof {
                assert(self@ =~= up_frames(old(self)@));
            }
            None
        } else {
            self.stack.pop();
            let top = self.stack[self.stack.len() - 1];
            let idx = top.count - 1;
            self.set_top(Frame { node: top.node, count: idx });
            proof {
                assert(self@ =~= old(self)@.drop_last().update(
                    old(self)@.len() - 2,
                    Frame {
                        node: old(self)@[old(self)@.len() - 2].node,
                        count: (old(self)@[old(self)@.len() - 2].count - 1) as usize,
                    },
                ));
            }
            let c = tree.take_child(top.node, idx);
            Some(c)
        }
    }

    /// Captures the current position: the counter of every frame, root
    /// first.
    pub fn pos(&self) -> (p: TreeCursorPos)
        requires
            self.wf(),
            !self.suspended(),
        ensures
            p.wf(),
            p@ == counts_of(self@),
    {
        let mut counts: Vec<usize> = Vec::new();
        let mut i: usize = 0;
        while i < self.stack.len()
            invariant
                0 <= i <= self.stack@.len(),
                counts@ == counts_of(self.stack@.take(i as int)),
            decreases self.stack@.len() - i,
        {
            counts.push(self.stack[i].count);
            proof {
                assert(counts@ =~= counts_of(self.stack@.take(i + 1)));
            }
            i += 1;
        }
        proof {
            assert(counts@ =~= counts_of(self.stack@));
        }
        TreeCursorPos { counts }
    }

    /// Restores a captured position: truncates the stack to the root, then
    /// replays every recorded counter but the last by descending to the
    /// child at that counter minus one, and writes the last counter into the
    /// top frame. If an intermediate descent finds no child, the cursor is
    /// rolled back to the position it had before the call and
    /// `SetPosError::MissingNode` comes back. Restoring the same still-valid
    /// position twice is idempotent. The lookups leave the tree as it was.
    pub fn set_pos<T: DownMut>(&mut self, tree: &mut T, pos: &TreeCursorPos) -> (r: Result<
        (),
        SetPosError,
    >)
        requires
            old(self).wf(),
            !old(self).suspended(),
            pos.wf(),
        ensures
            final(self).wf(),
            !final(self).suspended(),
            *final(tree) == *old(tree),
            match r {
                Ok(u) => replay(*old(tree), old(self)@[0].node, pos@) == Some(final(self)@),
                Err(e) => e == SetPosError::MissingNode && replay(
                    *old(tree),
                    old(self)@[0].node,
                    pos@,
                ) is None && final(self)@ == old(self)@,
            },
    {
        let ghost t0 = *tree;
        let root = self.stack[0].node;
        let n = pos.counts.len();
        let mut done: Vec<Frame> = Vec::new();
        let mut cur: usize = root;
        let mut i: usize = 0;
        proof {
            assert(pos@.skip(0) =~= pos@);
            if replay(t0, root, pos@) is Some {
                let whole = replay(t0, root, pos@)->Some_0;
                assert(Seq::<Frame>::empty() + whole =~= whole);
            }
        }
        while i < n - 1
            invariant
                pos.wf(),
                n == pos@.len(),
                n >= 1,
                0 <= i <= n - 1,
                t0 == *old(tree),
                *tree == t0,
                *self == *old(self),
                old(self).wf(),
                !self.suspended(),
                root == old(self)@[0].node,
                done@.len() == i,
                forall|j: int| 0 <= j < i ==> (#[trigger] done@[j]).count >= 1,
                match replay(t0, cur, pos@.skip(i as int)) {
                    Some(rest) => replay(t0, root, pos@) == Some(done@ + rest),
                    None => replay(t0, root, pos@) is None,
                },
            decreases n - 1 - i,
        {
            let idx = pos.counts[i];
            match tree.down_mut(cur, idx - 1) {
                None => {
                    proof {
                        assert(pos@.skip(i as int)[0] == pos@[i as int]);
                    }
                    return Err(SetPosError::MissingNode);
                },
                Some(c) => {
                    proof {
                        assert(pos@.skip(i as int).skip(1) =~= pos@.skip(i + 1));
                        assert(pos@.skip(i as int)[0] == pos@[i as int]);
                    }
                    done.push(Frame { node: cur, count: idx });
                    cur = c;
                    i += 1;
                    proof {
                        if replay(t0, cur, pos@.skip(i as int)) is Some {
                            let rest = replay(t0, cur, pos@.skip(i as int))->Some_0;
                            assert(done@ + rest =~= done@.drop_last() + (seq![
                                Frame { node: done@.last().node, count: done@.last().count },
                            ] + rest));
                        }
                    }
                },
            }
        }
        let last = pos.counts[n - 1];
        done.push(Frame { node: cur, count: last });
        proof {
            assert(pos@.skip(n - 1 as int).len() == 1);
            assert(pos@.skip(n - 1 as int)[0] == pos@[n - 1]);
            let rest = replay(t0, cur, pos@.skip(n - 1));
            assert(rest == Some(seq![Frame { node: cur, count: pos@[n - 1] }]));
            assert(done@ =~= done@.drop_last() + seq![Frame { node: cur, count: pos@[n - 1] }]);
        }
        self.stack = done;
        Ok(())
    }
}

impl From<TreeCursorMut> for TreeCursor {
    /// The same frames, handed over to a read-only cursor. The mutable
    /// cursor is consumed — discarded, as far as any cursor split off it is
    /// concerned — and the snapshot, like `as_cursor`'s, must not be read
    /// while an exclusive cursor over the same nodes is in use.
    fn from(cm: TreeCursorMut) -> (c: TreeCursor)
        ensures
            c@ == cm@,
    {
        TreeCursor { stack: cm.stack }
    }
}

impl vstd::std_specs::convert::FromSpecImpl<TreeCursorMut> for TreeCursor {
    open spec fn obeys_from_spec() -> bool {
        true
    }

    closed spec fn from_spec(cm: TreeCursorMut) -> TreeCursor {
        TreeCursor { stack: cm.stack }
    }
}

/// One parent-to-child link of a stack holds in the store `t`: the frame
/// below the link took at least one descent, and the child its counter minus
/// one resolves to is the frame above.
pub open spec fn link_ok<T: DownMut>(t: T, s: Seq<Frame>, i: int) -> bool {
    &&& s[i - 1].count >= 1
    &&& t.child_mut(s[i - 1].node, (s[i - 1].count - 1) as usize) == Some(s[i].node)
}

/// The stack describes a real path of the store `t`: every frame was reached
/// from the one below it by the descent that frame's counter records. This
/// is what holds of a mutable cursor's stack as long as every descent came
/// from `t` and `t` was not restructured since.
pub open spec fn consistent_with<T: DownMut>(t: T, s: Seq<Frame>) -> bool {
    &&& s.len() >= 1
    &&& forall|i: int| 1 <= i < s.len() ==> #[trigger] link_ok(t, s, i)
}

/// Position round-trip law: the counters captured from any path of the store
/// replay, against the same store, to exactly that path. So capturing with
/// `pos`, navigating anywhere, and restoring with `set_pos` succeeds and
/// brings `get` back to the node active at capture time, provided no
/// structural mutation intervened.
pub proof fn lemma_replay_captured_path<T: DownMut>(t: T, s: Seq<Frame>)
    requires
        consistent_with(t, s),
    ensures
        replay(t, s[0].node, counts_of(s)) == Some(s),
    decreases s.len(),
{
    let p = counts_of(s);
    if s.len() == 1 {
        assert(seq![Frame { node: s[0].node, count: p[0] }] =~= s);
    } else {
        let s1 = s.skip(1);
        assert(link_ok(t, s, 1));
        assert forall|i: int| 1 <= i < s1.len() implies #[trigger] link_ok(t, s1, i) by {
            assert(link_ok(t, s, i + 1));
        }
        lemma_replay_captured_path(t, s1);
        assert(counts_of(s1) =~= p.skip(1));
        assert(seq![Frame { node: s[0].node, count: p[0] }] + s1 =~= s);
    }
}

/// What a successful replay yields: one frame per counter, rooted where the
/// replay started, carrying exactly the replayed counters, and itself a real
/// path of the store — so a restored position can be captured and restored
/// again.
pub proof fn lemma_replay_properties<T: DownMut>(t: T, root: usize, p: Seq<usize>)
    requires
        p.len() >= 1,
    ensures
        replay(t, root, p) matches Some(s) ==> s.len() == p.len() && s[0].node == root
            && counts_of(s) == p && consistent_with(t, s),
    decreases p.len(),
{
    if p.len() == 1 {
        let s = seq![Frame { node: root, count: p[0] }];
        assert(counts_of(s) =~= p);
    } else if p[0] == 0 {
    } else {
        match t.child_mut(root, (p[0] - 1) as usize) {
            Some(c) => {
                lemma_replay_properties(t, c, p.skip(1));
                match replay(t, c, p.skip(1)) {
                    Some(rest) => {
                        let s = seq![Frame { node: root, count: p[0] }] + rest;
                        assert forall|i: int| 0 <= i < counts_of(s).len() implies counts_of(
                            s,
                        )[i] == p[i] by {
                            if i >= 1 {
                                assert(s[i] == rest[i - 1]);
                                assert(counts_of(rest)[i - 1] == p.skip(1)[i - 1]);
                            }
                        }
                        assert(counts_of(s) =~= p);
                        assert(link_ok(t, s, 1));
                        assert forall|i: int| 1 <= i < s.len() implies #[trigger] link_ok(
                            t,
                            s,
                            i,
                        ) by {
                            if i >= 2 {
                                assert(link_ok(t, rest, i - 1));
                            }
                        }
                    },
                    None => {},
                }
            },
            None => {},
        }
    }
}

/// Restoring a still-valid position twice in a row is idempotent: the second
/// restore replays from the same root frame as the first and yields the same
/// stack again, with no further side effect.
pub proof fn lemma_set_pos_idempotent<T: DownMut>(t: T, root: usize, p: Seq<usize>)
    requires
        p.len() >= 1,
        replay(t, root, p) is Some,
    ensures
        replay(t, root, p) matches Some(s) ==> replay(t, s[0].node, p) == replay(t, root, p),
{
    lemma_replay_properties(t, root, p);
}

/// At the root, `up` fails and the active node stays put; repeating it
/// changes nothing further, however often it is tried.
pub proof fn lemma_up_at_root(s: Seq<Frame>)
    requires
        stack_wf(s),
        s.len() == 1,
    ensures
        up_frames(s).len() == 1,
        up_frames(s).last().node == s.last().node,
        up_frames(up_frames(s)) == up_frames(s),
{
    assert(up_frames(up_frames(s)) =~= up_frames(s));
}

} // verus!
