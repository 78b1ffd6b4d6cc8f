//! Decisions of dragging with the mouse: how a drag moves a node, how it resizes one, and how
//! the held position follows the mouse.
use vstd::prelude::*;
use crate::geometry::PartialRect;
use crate::style::Offset;
use crate::style::size::{Size, SizeValue};

verus! {

/// Return value of the `on_drag` event handler callback.
#[derive(Debug, Clone, Copy, PartialEq, Eq, Structural)]
pub struct OnDragResult {
    /// Indicates if event handling should stop.
    pub stop_propagation: bool,
    /// If true, `context.hold` X value will be updated to `drag end` X value.
    pub update_hold_x: bool,
    /// If true, `context.hold` Y value will be updated to `drag end` Y value.
    pub update_hold_y: bool,
}

impl Default for OnDragResult {
    fn default() -> (r: Self)
        ensures
            r == (OnDragResult { stop_propagation: false, update_hold_x: false, update_hold_y: false }),
    {
        OnDragResult { stop_propagation: false, update_hold_x: false, update_hold_y: false }
    }
}

/// The drag's start (the held position) and its delta to the mouse position `end`.
pub fn drag_start_delta(hold: (u16, u16), end: (u16, u16)) -> (r: ((i16, i16), (i16, i16)))
    requires
        i16::MIN <= (end.0 as i16) - (hold.0 as i16) <= i16::MAX,
        i16::MIN <= (end.1 as i16) - (hold.1 as i16) <= i16::MAX,
    ensures
        r.0 == ((hold.0 as i16), (hold.1 as i16)),
        r.1.0 == (end.0 as i16) - (hold.0 as i16),
        r.1.1 == (end.1 as i16) - (hold.1 as i16),
{
    let start = (hold.0 as i16, hold.1 as i16);
    (start, (end.0 as i16 - start.0, end.1 as i16 - start.1))
}

/// The held position after a drag handled with `result`: each coordinate follows the mouse
/// when the handler asked for it.
pub fn updated_hold(hold: (u16, u16), end: (u16, u16), result: OnDragResult) -> (r: (u16, u16))
    ensures
        r == (if result.update_hold_x { end.0 } else { hold.0 }, if result.update_hold_y { end.1 } else { hold.1 }),
{
    (if result.update_hold_x { end.0 } else { hold.0 }, if result.update_hold_y { end.1 } else { hold.1 })
}

/// A node that can be dragged around with the mouse.
pub struct Draggable;

impl Draggable {
    /// A draggable node's answer to a drag: with the expected modifiers and a start inside the
    /// drag area, its offset moves by the delta (keeping its kind) and the drag is taken;
    /// otherwise nothing changes.
    pub fn on_drag(offset: Offset, delta: (i16, i16), modifiers_match: bool, relative: (u16, u16), drag_area: &PartialRect) -> (r: (Offset, OnDragResult))
        requires
            i16::MIN <= offset.spec_x() + delta.0 <= i16::MAX,
            i16::MIN <= offset.spec_y() + delta.1 <= i16::MAX,
        ensures
            if modifiers_match && drag_area.spec_contains(relative.0 as int, relative.1 as int) {
                &&& r.0.spec_x() == offset.spec_x() + delta.0
                &&& r.0.spec_y() == offset.spec_y() + delta.1
                &&& (r.0 is Absolute) == (offset is Absolute)
                &&& (r.0 is AbsolutelyRelative) == (offset is AbsolutelyRelative)
                &&& (r.0 is Translate) == (offset is Translate)
                &&& r.1 == (OnDragResult { stop_propagation: true, update_hold_x: true, update_hold_y: true })
            } else {
                r == (offset, OnDragResult { stop_propagation: false, update_hold_x: false, update_hold_y: false })
            },
    {
        let result = OnDragResult::default();
        if !modifiers_match {
            return (offset, result);
        }
        let (x, y) = relative;
        if !drag_area.contains(x, y) {
            return (offset, result);
        }
        let moved = offset.add_without_variant_change(delta);
        (moved, OnDragResult { stop_propagation: true, update_hold_x: true, update_hold_y: true })
    }
}

/// A resizable node's answer to a drag that starts at `relative` inside it: a drag from its
/// right (bottom) edge sets its width (height) in cells to the computed size plus the delta,
/// where that is allowed and not negative, and takes the drag.
pub open spec fn spec_resize(size: Size, total: (u16, u16), allow_x: bool, allow_y: bool, relative: (u16, u16), delta: (i16, i16)) -> (Size, OnDragResult) {
    let drag_x = relative.0 + 1 == total.0;
    let drag_y = relative.1 + 1 == total.1;
    let new_width = (size.width.spec_computed_size() as i16) + delta.0;
    let new_height = (size.height.spec_computed_size() as i16) + delta.1;
    let x_ok = drag_x && allow_x && new_width >= 0;
    let y_ok = drag_y && allow_y && new_height >= 0;
    if (!allow_x && !allow_y) || (!drag_x && !drag_y) {
        (size, OnDragResult { stop_propagation: false, update_hold_x: false, update_hold_y: false })
    } else {
        (
            Size {
                width: if x_ok { SizeValue::Cells(new_width as u16) } else { size.width },
                height: if y_ok { SizeValue::Cells(new_height as u16) } else { size.height },
            },
            OnDragResult { stop_propagation: x_ok || y_ok, update_hold_x: x_ok, update_hold_y: y_ok },
        )
    }
}

/// A node that can be resized by dragging its right or bottom edge.
pub struct Resizable;

impl Resizable {
    /// Returns the size of a resizable node after a drag, and the drag's result (see
    /// [`spec_resize`]).
    pub fn on_drag(size: Size, total: (u16, u16), allow_x: bool, allow_y: bool, relative: (u16, u16), delta: (i16, i16)) -> (r: (Size, OnDragResult))
        requires
            (allow_x || allow_y) ==> relative.0 < u16::MAX && relative.1 < u16::MAX,
            (allow_x || allow_y) ==> i16::MIN <= (size.width.spec_computed_size() as i16) + delta.0 <= i16::MAX,
            (allow_x || allow_y) ==> i16::MIN <= (size.height.spec_computed_size() as i16) + delta.1 <= i16::MAX,
        ensures
            r == spec_resize(size, total, allow_x, allow_y, relative, delta),
    {
        let mut result = OnDragResult::default();
        if !allow_x && !allow_y {
            return (size, result);
        }
        let drag_x = relative.0 + 1 == total.0;
        let drag_y = relative.1 + 1 == total.1;
        if !drag_x && !drag_y {
            return (size, result);
        }
        let mut new_size = size;
        let new_width = size.width.computed_size() as i16 + delta.0;
        if drag_x && allow_x && new_width >= 0 {
            new_size.width = SizeValue::cells(new_width as u16);
            result.update_hold_x = true;
            result.stop_propagation = true;
        }
        let new_height = size.height.computed_size() as i16 + delta.1;
        if drag_y && allow_y && new_height >= 0 {
            new_size.height = SizeValue::cells(new_height as u16);
            result.update_hold_y = true;
            result.stop_propagation = true;
        }
        (new_size, result)
    }
}

/// A size may change only along an axis on which resizing is allowed and from the edge the drag
/// starts at: where resizing in width (height) is not allowed, or the drag does not start at
/// the right (bottom) edge, the width (height) is returned unchanged and the drag does not
/// update the hold on that axis. Where it is allowed and starts at that edge, and the computed
/// size plus the delta is not negative, the size becomes that many cells and the drag updates
/// the hold on that axis. The drag stops propagating exactly when it updated a hold.
pub proof fn lemma_resize_axes(size: Size, total: (u16, u16), allow_x: bool, allow_y: bool, relative: (u16, u16), delta: (i16, i16))
    ensures
        ({
            let (s, r) = spec_resize(size, total, allow_x, allow_y, relative, delta);
            let new_width = (size.width.spec_computed_size() as i16) + delta.0;
            let new_height = (size.height.spec_computed_size() as i16) + delta.1;
            &&& !allow_x || relative.0 + 1 != total.0 ==> s.width == size.width && !r.update_hold_x
            &&& !allow_y || relative.1 + 1 != total.1 ==> s.height == size.height && !r.update_hold_y
            &&& allow_x && relative.0 + 1 == total.0 && new_width >= 0 ==> s.width == SizeValue::Cells(new_width as u16)
                && r.update_hold_x
            &&& allow_y && relative.1 + 1 == total.1 && new_height >= 0 ==> s.height == SizeValue::Cells(new_height as u16)
                && r.update_hold_y
            &&& r.stop_propagation == (r.update_hold_x || r.update_hold_y)
        }),
{
}

} // verus!
