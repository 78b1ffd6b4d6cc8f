//! Focus cycling among the nodes of a container.
use vstd::prelude::*;
use crate::node::NodeId;

verus! {

/// Represents the direction of navigation (e.g., focus cycling).
#[derive(Debug, Clone, Copy, PartialEq, Eq, Structural, Hash, PartialOrd, Ord)]
pub enum Navigation {
    Next,
    Previous,
}

impl Default for Navigation {
    fn default() -> (r: Self)
        ensures
            r == Navigation::Next,
    {
        Navigation::Next
    }
}

/// The first index at which `id` occurs in `ids`.
pub open spec fn first_index_of(ids: Seq<NodeId>, id: NodeId) -> int
    recommends
        ids.contains(id),
{
    choose|i: int| 0 <= i < ids.len() && ids[i] == id && forall|k: int| 0 <= k < i ==> ids[k] != id
}

/// The index that focus moves to from index `focus` in a list of `len` nodes, if any.
pub open spec fn spec_step(focus: int, len: int, navigation: Navigation, wrapping: bool) -> Option<int> {
    match navigation {
        Navigation::Next => if focus + 1 < len {
            Some(focus + 1)
        } else if wrapping {
            Some(0)
        } else {
            None
        },
        Navigation::Previous => if focus > 0 {
            Some(focus - 1)
        } else if wrapping {
            Some(len - 1)
        } else {
            None
        },
    }
}

/// The new focus among `ids`, given as an index into it: the neighbour of the first
/// occurrence of `focus_id` in the direction of `navigation`, wrapping around the ends if
/// `wrapping`, and `None` where there is no neighbour or it has the focused id.
pub open spec fn spec_cycle_focus(ids: Seq<NodeId>, focus_id: NodeId, navigation: Navigation, wrapping: bool) -> Option<int> {
    match spec_step(first_index_of(ids, focus_id), ids.len() as int, navigation, wrapping) {
        Some(next) => if ids[next] == focus_id { None } else { Some(next) },
        None => None,
    }
}

/// Picks the next focused node among the flat list `ids` of a container and its descendants
/// (in tree order, container first). Returns the index of the new focus in `ids`.
pub fn cycle_focus(ids: &Vec<NodeId>, focus_id: NodeId, navigation: Navigation, wrapping: bool) -> (r: Option<usize>)
    requires
        ids@.contains(focus_id),
    ensures
        r matches Some(i) ==> i < ids@.len(),
        r == (match spec_cycle_focus(ids@, focus_id, navigation, wrapping) {
            Some(i) => Some(i as usize),
            None => None,
        }),
{
    let n = ids.len();
    let mut focus_index: usize = 0;
    while focus_index < n && ids[focus_index] != focus_id
        invariant
            focus_index <= n,
            n == ids@.len(),
            ids@.contains(focus_id),
            forall|k: int| 0 <= k < focus_index ==> ids@[k] != focus_id,
        decreases n - focus_index,
    {
        focus_index = focus_index + 1;
    }
    proof {
        if focus_index == n {
            let w = choose|w: int| 0 <= w < ids@.len() && ids@[w] == focus_id;
            assert(ids@[w] == focus_id);
        }
        assert(ids@[focus_index as int] == focus_id);
        let f = first_index_of(ids@, focus_id);
        assert(0 <= f < ids@.len() && ids@[f] == focus_id && forall|k: int| 0 <= k < f ==> ids@[k] != focus_id);
        if f < focus_index {
            assert(ids@[f] != focus_id);
        }
        if focus_index < f {
            assert(ids@[focus_index as int] != focus_id);
        }
        assert(f == focus_index);
    }
    let next_index: usize = match navigation {
        Navigation::Next => {
            if focus_index + 1 < n {
                focus_index + 1
            } else if wrapping {
                0
            } else {
                return None;
            }
        },
        Navigation::Previous => {
            if focus_index > 0 {
                focus_index - 1
            } else if wrapping {
                n - 1
            } else {
                return None;
            }
        },
    };
    if ids[next_index] == focus_id {
        return None;
    }
    Some(next_index)
}

/// With wrapping, in a list of at least two nodes a step forward always lands on another
/// position inside the list, and a step backward from there returns to where it started.
pub proof fn lemma_cycle_round_trip(ids: Seq<NodeId>, focus: int)
    requires
        0 <= focus < ids.len(),
        ids.len() >= 2,
    ensures
        ({
            let next = spec_step(focus, ids.len() as int, Navigation::Next, true).unwrap();
            &&& spec_step(focus, ids.len() as int, Navigation::Next, true) is Some
            &&& 0 <= next < ids.len()
            &&& next != focus
            &&& spec_step(next, ids.len() as int, Navigation::Previous, true) == Some(focus)
        }),
{
}

/// Wrapping matters only at the ends: from any position but the last a step forward goes to
/// the next position, and from any position but the first a step backward goes to the one
/// before, with or without wrapping. At the last position a step forward goes to the first
/// with wrapping and nowhere without it; at the first a step backward goes to the last with
/// wrapping and nowhere without it.
pub proof fn lemma_step_interior(focus: int, len: int, wrapping: bool)
    requires
        0 <= focus < len,
    ensures
        focus + 1 < len ==> spec_step(focus, len, Navigation::Next, wrapping) == Some(focus + 1),
        focus > 0 ==> spec_step(focus, len, Navigation::Previous, wrapping) == Some(focus - 1),
        focus + 1 == len ==> spec_step(focus, len, Navigation::Next, wrapping) == (if wrapping {
            Some(0int)
        } else {
            None::<int>
        }),
        focus == 0 ==> spec_step(focus, len, Navigation::Previous, wrapping) == (if wrapping {
            Some(len - 1)
        } else {
            None::<int>
        }),
{
}

/// In a list where no id occurs twice, the first occurrence of the id at position `i` is `i`.
pub proof fn lemma_first_index_of_distinct(ids: Seq<NodeId>, i: int)
    requires
        0 <= i < ids.len(),
        forall|a: int, b: int| 0 <= a < b < ids.len() ==> ids[a] != ids[b],
    ensures
        first_index_of(ids, ids[i]) == i,
{
    let id = ids[i];
    assert(0 <= i < ids.len() && ids[i] == id && forall|k: int| 0 <= k < i ==> ids[k] != id);
    let c = first_index_of(ids, id);
    assert(0 <= c < ids.len() && ids[c] == id && forall|k: int| 0 <= k < c ==> ids[k] != id);
    if c < i {
        assert(ids[c] != ids[i]);
    }
    if i < c {
        assert(ids[i] != id);
    }
}

/// Among ids that occur once each, focus moves from the node at position `i` to the node right
/// after it (before it, for `Previous`) with or without wrapping, where there is one; past the
/// last node it moves to the first only with wrapping, and before the first to the last only
/// with wrapping.
pub proof fn lemma_cycle_focus_neighbours(ids: Seq<NodeId>, i: int, wrapping: bool)
    requires
        0 <= i < ids.len(),
        forall|a: int, b: int| 0 <= a < b < ids.len() ==> ids[a] != ids[b],
    ensures
        i + 1 < ids.len() ==> spec_cycle_focus(ids, ids[i], Navigation::Next, wrapping) == Some(i + 1),
        i > 0 ==> spec_cycle_focus(ids, ids[i], Navigation::Previous, wrapping) == Some(i - 1),
        i + 1 == ids.len() ==> spec_cycle_focus(ids, ids[i], Navigation::Next, wrapping) == (if wrapping && ids.len() >= 2 {
            Some(0int)
        } else {
            None::<int>
        }),
        i == 0 ==> spec_cycle_focus(ids, ids[i], Navigation::Previous, wrapping) == (if wrapping && ids.len() >= 2 {
            Some(ids.len() - 1)
        } else {
            None::<int>
        }),
{
    lemma_first_index_of_distinct(ids, i);
    lemma_step_interior(i, ids.len() as int, wrapping);
    if i + 1 < ids.len() {
        assert(ids[i] != ids[i + 1]);
    }
    if i > 0 {
        assert(ids[i - 1] != ids[i]);
    }
    if ids.len() >= 2 {
        assert(ids[0] != ids[ids.len() - 1]);
    }
}

} // verus!
