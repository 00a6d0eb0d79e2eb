//! Full down/up traversals and the balance law they obey: over a completed
//! traversal, the successful descents and the successful ascents pair up.

use vstd::prelude::*;

use crate::cursor::{down_frames, Frame, TreeCursor, TreeCursorMut};
use crate::vec_tree::{lemma_vec_tree_capabilities_agree, VecTree};
use crate::{Down, DownMut};

verus! {

/// The rest of a full traversal run from the state `s`, with `downs` and
/// `ups` successes already behind it: descend whenever the store offers a
/// child at the top counter, otherwise go up, and stop when even the root
/// offers nothing further. A store may describe a cyclic graph, so `fuel`
/// bounds the number of steps; `None` means the walk did not finish within
/// them.
pub open spec fn traversal_from<T: Down>(
    t: T,
    s: Seq<Frame>,
    downs: nat,
    ups: nat,
    fuel: nat,
) -> Option<(nat, nat)>
    decreases fuel,
{
    if fuel == 0 {
        None
    } else {
        match t.child(s.last().node, s.last().count) {
            Some(c) => traversal_from(t, down_frames(s, c), downs + 1, ups, (fuel - 1) as nat),
            None => if s.len() <= 1 {
                Some((downs, ups))
            } else {
                traversal_from(t, s.drop_last(), downs, ups + 1, (fuel - 1) as nat)
            },
        }
    }
}

/// As [`traversal_from`], but descending by the exclusive capability.
pub open spec fn traversal_from_mut<T: DownMut>(
    t: T,
    s: Seq<Frame>,
    downs: nat,
    ups: nat,
    fuel: nat,
) -> Option<(nat, nat)>
    decreases fuel,
{
    if fuel == 0 {
        None
    } else {
        match t.child_mut(s.last().node, s.last().count) {
            Some(c) => traversal_from_mut(t, down_frames(s, c), downs + 1, ups, (fuel - 1) as nat),
            None => if s.len() <= 1 {
                Some((downs, ups))
            } else {
                traversal_from_mut(t, s.drop_last(), downs, ups + 1, (fuel - 1) as nat)
            },
        }
    }
}

/// Balance law: however a completed traversal went, its successful descents
/// and ascents differ exactly by the depth it started at — so a traversal
/// begun at a root frame has as many successful `down` calls as successful
/// `up` calls.
pub proof fn lemma_traversal_balanced<T: Down>(
    t: T,
    s: Seq<Frame>,
    downs: nat,
    ups: nat,
    fuel: nat,
)
    requires
        s.len() >= 1,
    ensures
        traversal_from(t, s, downs, ups, fuel) matches Some(e) ==> e.0 >= downs && e.1 >= ups
            && e.0 + ups + s.len() == e.1 + downs + 1,
    decreases fuel,
{
    if fuel > 0 {
        match t.child(s.last().node, s.last().count) {
            Some(c) => {
                lemma_traversal_balanced(t, down_frames(s, c), downs + 1, ups, (fuel - 1) as nat);
            },
            None => {
                if s.len() > 1 {
                    lemma_traversal_balanced(t, s.drop_last(), downs, ups + 1, (fuel - 1) as nat);
                }
            },
        }
    }
}

/// The balance law for the exclusive traversal.
pub proof fn lemma_traversal_balanced_mut<T: DownMut>(
    t: T,
    s: Seq<Frame>,
    downs: nat,
    ups: nat,
    fuel: nat,
)
    requires
        s.len() >= 1,
    ensures
        traversal_from_mut(t, s, downs, ups, fuel) matches Some(e) ==> e.0 >= downs && e.1 >= ups
            && e.0 + ups + s.len() == e.1 + downs + 1,
    decreases fuel,
{
    if fuel > 0 {
        match t.child_mut(s.last().node, s.last().count) {
            Some(c) => {
                lemma_traversal_balanced_mut(
                    t,
                    down_frames(s, c),
                    downs + 1,
                    ups,
                    (fuel - 1) as nat,
                );
            },
            None => {
                if s.len() > 1 {
                    lemma_traversal_balanced_mut(
                        t,
                        s.drop_last(),
                        downs,
                        ups + 1,
                        (fuel - 1) as nat,
                    );
                }
            },
        }
    }
}

/// Agreement law: on a store whose shared and exclusive capability views
/// resolve every (node, index) pair alike, the two cursor kinds traverse
/// identically — same steps, same counts.
pub proof fn lemma_traversal_kinds_agree<T: Down + DownMut>(
    t: T,
    s: Seq<Frame>,
    downs: nat,
    ups: nat,
    fuel: nat,
)
    requires
        forall|id: usize, idx: usize| #[trigger] Down::child(&t, id, idx) == DownMut::child_mut(
            &t,
            id,
            idx,
        ),
    ensures
        traversal_from(t, s, downs, ups, fuel) == traversal_from_mut(t, s, downs, ups, fuel),
    decreases fuel,
{
    if fuel > 0 {
        match t.child(s.last().node, s.last().count) {
            Some(c) => {
                lemma_traversal_kinds_agree(t, down_frames(s, c), downs + 1, ups, (fuel - 1) as nat);
            },
            None => {
                if s.len() > 1 {
                    lemma_traversal_kinds_agree(t, s.drop_last(), downs, ups + 1, (fuel - 1) as nat);
                }
            },
        }
    }
}

/// On an arena store the agreement law needs no premise: both capability
/// views of a [`VecTree`] resolve children alike, so the two cursor kinds
/// traverse any `VecTree` identically.
pub proof fn lemma_vec_tree_traversals_agree(
    t: VecTree,
    s: Seq<Frame>,
    downs: nat,
    ups: nat,
    fuel: nat,
)
    ensures
        traversal_from(t, s, downs, ups, fuel) == traversal_from_mut(t, s, downs, ups, fuel),
{
    assert forall|id: usize, idx: usize| #[trigger] Down::child(&t, id, idx)
        == DownMut::child_mut(&t, id, idx) by {
        lemma_vec_tree_capabilities_agree(t, id, idx);
    }
    lemma_traversal_kinds_agree(t, s, downs, ups, fuel);
}

/// Runs a full traversal with a shared cursor: descend until the store is
/// exhausted, go up, and repeat until `up` fails at the root, counting the
/// successes of each kind. Returns `None` if `fuel` steps did not finish the
/// walk, as on a cyclic store; on completion the counts are balanced and the
/// cursor rests on its root frame, counter zeroed.
pub fn full_traversal<T: Down>(tree: &T, c: &mut TreeCursor, fuel: usize) -> (r: Option<
    (usize, usize),
>)
    requires
        old(c).wf(),
    ensures
        final(c).wf(),
        match (r, traversal_from(*tree, old(c)@, 0, 0, fuel as nat)) {
            (Some(e), Some(g)) => e.0 == g.0 && e.1 == g.1,
            (None, None) => true,
            _ => false,
        },
        r matches Some(e) ==> e.0 + old(c)@.len() == e.1 + 1 && final(c)@ == seq![
            Frame { node: old(c)@[0].node, count: 0 },
        ],
        r is None ==> final(c).wf(),
    {
        let ghost s0 = c@;
        let mut fuel_left = fuel;
        let mut downs: usize = 0;
        let mut ups: usize = 0;
        loop
            invariant
                c.wf(),
                s0 == old(c)@,
                c@[0].node == s0[0].node,
                s0.len() >= 1,
                fuel_left <= fuel,
                downs + fuel_left <= fuel,
                ups + fuel_left <= fuel,
                traversal_from(*tree, s0, 0, 0, fuel as nat) == traversal_from(
                    *tree,
                    c@,
                    downs as nat,
                    ups as nat,
                    fuel_left as nat,
                ),
            decreases fuel_left,
        {
            if fuel_left == 0 {
                proof {
                    assert(traversal_from(*tree, c@, downs as nat, ups as nat, 0nat) is None);
                }
                return None;
            }
            if c.down(tree) {
                fuel_left = fuel_left - 1;
                downs = downs + 1;
            } else {
                if c.up() {
                    fuel_left = fuel_left - 1;
                    ups = ups + 1;
                } else {
                    proof {
                        lemma_traversal_balanced(*tree, s0, 0, 0, fuel as nat);
                    }
                    return Some((downs, ups));
                }
            }
        }
    }

/// As [`full_traversal`], with a mutable cursor and the exclusive
/// capability; the lookups leave the tree as it was.
pub fn full_traversal_mut<T: DownMut>(tree: &mut T, c: &mut TreeCursorMut, fuel: usize) -> (r:
    Option<(usize, usize)>)
    requires
        old(c).wf(),
        !old(c).suspended(),
    ensures
        final(c).wf(),
        !final(c).suspended(),
        *final(tree) == *old(tree),
        match (r, traversal_from_mut(*old(tree), old(c)@, 0, 0, fuel as nat)) {
            (Some(e), Some(g)) => e.0 == g.0 && e.1 == g.1,
            (None, None) => true,
            _ => false,
        },
        r matches Some(e) ==> e.0 + old(c)@.len() == e.1 + 1 && final(c)@ == seq![
            Frame { node: old(c)@[0].node, count: 0 },
        ],
    {
        let ghost t0 = *tree;
        let ghost s0 = c@;
        let mut fuel_left = fuel;
        let mut downs: usize = 0;
        let mut ups: usize = 0;
        loop
            invariant
                c.wf(),
                !c.suspended(),
                s0 == old(c)@,
                c@[0].node == s0[0].node,
                s0.len() >= 1,
                t0 == *old(tree),
                *tree == t0,
                fuel_left <= fuel,
                downs + fuel_left <= fuel,
                ups + fuel_left <= fuel,
                traversal_from_mut(t0, s0, 0, 0, fuel as nat) == traversal_from_mut(
                    t0,
                    c@,
                    downs as nat,
                    ups as nat,
                    fuel_left as nat,
                ),
            decreases fuel_left,
        {
            if fuel_left == 0 {
                proof {
                    assert(traversal_from_mut(t0, c@, downs as nat, ups as nat, 0nat) is None);
                }
                return None;
            }
            if c.down(tree) {
                fuel_left = fuel_left - 1;
                downs = downs + 1;
            } else {
                if c.up() {
                    fuel_left = fuel_left - 1;
                    ups = ups + 1;
                } else {
                    proof {
                        lemma_traversal_balanced_mut(t0, s0, 0, 0, fuel as nat);
                    }
                    return Some((downs, ups));
                }
            }
        }
    }

} // verus!
