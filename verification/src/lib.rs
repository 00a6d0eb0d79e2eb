//! Cursor-based traversal and mutation of tree-shaped data.
//!
//! A tree is held in a node store: any type that can resolve a node id and a
//! 0-based child index to the id of that child. Node ids are stable integers
//! (indices into an arena, keys of a link table, and so on), so a cursor frame
//! records an address-like id rather than a reference, and navigation is O(1)
//! with no path re-walks. The store itself is only touched through the
//! capability traits below; its layout is the caller's business.
//!
//! Two cursor kinds walk such a store: [`cursor::TreeCursor`] for read-only
//! traversal through [`Down`], and [`cursor::TreeCursorMut`] for exclusive
//! traversal and structural mutation through [`DownMut`] and [`TakeChild`].
//! Exclusivity is enforced twice over. Within a call, the borrow the mutable
//! cursor takes on the store means no other reference into the tree is live
//! while an operation runs. Across calls, splitting a cursor off a mutable
//! cursor hands the exclusive slot to the derived cursor and suspends the
//! origin — every operation on it demands the suspension lifted, which only
//! giving the derived cursor back does — so two overlapping writers never
//! coexist.

use vstd::prelude::*;

pub mod cursor;
pub mod traversal;
pub mod vec_tree;

verus! {

/// Capability contract for shared descent: resolve a child id from a node id
/// and a 0-based child index.
pub trait Down {
    /// Which child, if any, sits at `idx` under the node `id`.
    spec fn child(&self, id: usize, idx: usize) -> Option<usize>;

    /// Part of the capability contract: children occupy indices strictly
    /// below `usize::MAX`, so a frame's next-child counter can always be
    /// incremented after a successful descent.
    proof fn child_bound(&self, id: usize)
        ensures
            self.child(id, usize::MAX) is None,
    ;

    /// Fetch the child of `id` at `idx`; `None` means there is no child at
    /// that index.
    fn down(&self, id: usize, idx: usize) -> (r: Option<usize>)
        ensures
            r == self.child(id, idx),
    ;
}

/// Capability contract for exclusive descent. The store is borrowed mutably,
/// which makes the caller the only party able to reach the tree for the
/// duration of the call; the lookup itself leaves the store unchanged.
pub trait DownMut: Sized {
    /// Which child, if any, sits at `idx` under the node `id`.
    spec fn child_mut(&self, id: usize, idx: usize) -> Option<usize>;

    /// As in [`Down::child_bound`]: no child sits at index `usize::MAX`.
    proof fn child_mut_bound(&self, id: usize)
        ensures
            self.child_mut(id, usize::MAX) is None,
    ;

    /// Fetch the child of `id` at `idx` for exclusive use; `None` means there
    /// is no child at that index.
    fn down_mut(&mut self, id: usize, idx: usize) -> (r: Option<usize>)
        ensures
            *final(self) == *old(self),
            r == old(self).child_mut(id, idx),
    ;
}

/// Capability contract for structural extraction: detach the child of `id` at
/// `idx` from the tree and hand it back. The store is left in a valid but
/// implementation-defined state; in particular, which indices the remaining
/// siblings end up under is the implementation's choice. What is not the
/// implementation's choice: the detached child is gone from `id`'s children,
/// so later traversal of `id` no longer reaches it.
pub trait TakeChild: DownMut {
    /// The store states in which extraction keeps that promise. What they
    /// rule out is the implementation's to say — an arena, for instance,
    /// rules out a child listed twice under one parent, which no sequence of
    /// its operations can produce anyway.
    spec fn store_wf(&self) -> bool;

    /// Detach and return the child of `id` at `idx`. The index must refer to
    /// a child that is present, which callers know from a previous descent.
    /// Afterward that child sits under no index of `id` at all.
    fn take_child(&mut self, id: usize, idx: usize) -> (c: usize)
        requires
            old(self).store_wf(),
            old(self).child_mut(id, idx) is Some,
        ensures
            final(self).store_wf(),
            Some(c) == old(self).child_mut(id, idx),
            forall|j: usize| final(self).child_mut(id, j) != Some(c),
    ;
}

} // verus!
