//! Decisions of dispatching events: which node a mouse event goes to, and which nodes see a
//! change of focus.
use vstd::prelude::*;
use crate::node::NodeId;

verus! {

/// The kind of a mouse event, as far as holding the mouse button matters.
#[derive(Debug, Clone, Copy, PartialEq, Eq, Structural)]
pub enum MouseAction {
    Down,
    Up,
    Drag,
    Other,
}

/// Where the mouse was pressed, and on which node.
pub type Hold = Option<(u16, u16, NodeId)>;

/// The hold after a mouse event at `(column, row)` over node `hit`, and the node the event goes
/// to: a press starts a hold on `hit`, a release ends it, and a drag goes to the held node.
pub open spec fn spec_mouse_target(action: MouseAction, hold: Hold, column: u16, row: u16, hit: NodeId) -> (Hold, NodeId) {
    match action {
        MouseAction::Down => (Some((column, row, hit)), hit),
        MouseAction::Up => (None, hit),
        MouseAction::Drag => (hold, match hold {
            Some((_, _, held)) => held,
            None => hit,
        }),
        MouseAction::Other => (hold, hit),
    }
}

/// Returns the hold after a mouse event and the node the event is dispatched to.
pub fn mouse_target(action: MouseAction, hold: Hold, column: u16, row: u16, hit: NodeId) -> (r: (Hold, NodeId))
    ensures
        r == spec_mouse_target(action, hold, column, row, hit),
{
    match action {
        MouseAction::Down => (Some((column, row, hit)), hit),
        MouseAction::Up => (None, hit),
        MouseAction::Drag => {
            let target = match hold {
                Some((_, _, held)) => held,
                None => hit,
            };
            (hold, target)
        },
        MouseAction::Other => (hold, hit),
    }
}

/// The number of ids that two paths (each from a node up to the root) share at their root end.
pub open spec fn common_tail(a: Seq<NodeId>, b: Seq<NodeId>) -> nat
    decreases a.len(),
{
    if a.len() == 0 || b.len() == 0 || a.last() != b.last() {
        0
    } else {
        1 + common_tail(a.drop_last(), b.drop_last())
    }
}

/// Returns how many nodes at the root end two paths have in common: the nodes that keep seeing
/// the focus inside them when the focus moves from the start of one path to the start of the
/// other.
pub fn common_parent_count(old_path: &Vec<NodeId>, new_path: &Vec<NodeId>) -> (r: usize)
    ensures
        r == common_tail(old_path@, new_path@),
        r <= old_path@.len() && r <= new_path@.len(),
{
    let mut n: usize = 0;
    let la = old_path.len();
    let lb = new_path.len();
    proof {
        assert(old_path@.take(la as int) =~= old_path@);
        assert(new_path@.take(lb as int) =~= new_path@);
    }
    while n < la && n < lb && old_path[la - 1 - n] == new_path[lb - 1 - n]
        invariant
            n <= la && n <= lb,
            la == old_path@.len(),
            lb == new_path@.len(),
            common_tail(old_path@, new_path@) == n + common_tail(
                old_path@.take(la - n),
                new_path@.take(lb - n),
            ),
        decreases la - n,
    {
        proof {
            let a = old_path@.take(la - n);
            let b = new_path@.take(lb - n);
            assert(a.last() == old_path@[la - 1 - n]);
            assert(b.last() == new_path@[lb - 1 - n]);
            assert(a.drop_last() =~= old_path@.take(la - n - 1));
            assert(b.drop_last() =~= new_path@.take(lb - n - 1));
        }
        n = n + 1;
    }
    proof {
        let a = old_path@.take(la - n);
        let b = new_path@.take(lb - n);
        if n < la && n < lb {
            assert(a.last() == old_path@[la - 1 - n]);
            assert(b.last() == new_path@[lb - 1 - n]);
        }
        assert(common_tail(a, b) == 0);
    }
    n
}

/// A step of dispatching an event along a path of nodes, the target first and the root last:
/// the handlers that capture, from the root down to the target's parent; the target's own
/// capturing and bubbling handlers; then the bubbling handlers from the parent up to the root.
#[derive(Debug, Clone, Copy, PartialEq, Eq, Structural)]
pub enum Phase {
    Capture(usize),
    Target,
    Bubble(usize),
    Done,
}

/// The first step for a path of `len` nodes.
pub fn first_phase(len: usize) -> (r: Phase)
    ensures
        r == if len == 0 {
            Phase::Done
        } else if len > 1 {
            Phase::Capture((len - 1) as usize)
        } else {
            Phase::Target
        },
{
    if len == 0 {
        Phase::Done
    } else if len > 1 {
        Phase::Capture(len - 1)
    } else {
        Phase::Target
    }
}

/// The step after `phase` on a path of `len` nodes, where `stop` says that its handlers stopped
/// the propagation: nothing more then, else the next node down, the target, or the next node
/// up, until the root has bubbled.
pub fn next_phase(phase: Phase, len: usize, stop: bool) -> (r: Phase)
    ensures
        r == if stop {
            Phase::Done
        } else {
            match phase {
                Phase::Capture(i) => if i > 1 { Phase::Capture((i - 1) as usize) } else { Phase::Target },
                Phase::Target => if len > 1 { Phase::Bubble(1) } else { Phase::Done },
                Phase::Bubble(i) => if i + 1 < len { Phase::Bubble((i + 1) as usize) } else { Phase::Done },
                Phase::Done => Phase::Done,
            }
        },
{
    if stop {
        return Phase::Done;
    }
    match phase {
        Phase::Capture(i) => if i > 1 {
            Phase::Capture(i - 1)
        } else {
            Phase::Target
        },
        Phase::Target => if len > 1 {
            Phase::Bubble(1)
        } else {
            Phase::Done
        },
        Phase::Bubble(i) => if len > 0 && i < len - 1 {
            Phase::Bubble(i + 1)
        } else {
            Phase::Done
        },
        Phase::Done => Phase::Done,
    }
}

} // verus!
