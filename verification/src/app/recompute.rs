//! Decisions of recomputing a node after it changed: how far up the tree the layout has to be
//! recomputed, and which part of the screen has to be rendered again.
use vstd::prelude::*;
use crate::app::Viewport;
use crate::node::layout::{max_int, min_int, nonneg_u16};
use crate::style::node_style::Style;

verus! {

/// A changed node needs its parent recomputed: unless it was and still is absolutely placed,
/// when it is auto-sized, its size changed, or its kind of offset changed.
pub open spec fn spec_needs_parent(style: Style, cached: Style) -> bool {
    let auto_sized = style.size.width is Auto || style.size.height is Auto;
    let changed_size = cached.size != style.size;
    let changed_offset_type = !((cached.offset is Absolute && style.offset is Absolute) || (cached.offset is AbsolutelyRelative
        && style.offset is AbsolutelyRelative) || (cached.offset is Translate && style.offset is Translate));
    let was_absolute = !(cached.offset is Translate);
    let is_absolute = !(style.offset is Translate);
    !(was_absolute && is_absolute) && (auto_sized || changed_size || changed_offset_type)
}

/// Whether recomputing a node with style `style`, last computed with `cached`, must start at
/// its parent.
pub fn needs_parent_recompute(style: &Style, cached: &Style) -> (r: bool)
    ensures
        r == spec_needs_parent(*style, *cached),
{
    let auto_sized = style.size.width.is_auto() || style.size.height.is_auto();
    let changed_size = cached.size != style.size;
    let changed_offset_type = !cached.offset.type_eq(style.offset);
    let was_absolute = cached.offset.is_absolute();
    let is_absolute = style.offset.is_absolute();
    if was_absolute && is_absolute {
        return false;
    }
    auto_sized || changed_size || changed_offset_type
}

/// The part of the screen to render again after a node moved from `cached_position` (with
/// total size `cached_size`) to `position` (with total size `size`): from the smaller start
/// to the larger end, within the screen; for a relatively placed node also within its
/// parent's content (from `parent_position`, `parent_size` large).
pub open spec fn spec_recompute_viewport(
    cached_viewport: Viewport,
    position: (i16, i16),
    cached_position: (i16, i16),
    size: (u16, u16),
    cached_size: (u16, u16),
    screen: (u16, u16),
    is_translate: bool,
    parent_position: (i16, i16),
    parent_size: (u16, u16),
) -> Viewport {
    let min = (
        min_int(nonneg_u16(min_int(position.0 as int, cached_position.0 as int)) as int, screen.0 as int) as u16,
        min_int(nonneg_u16(min_int(position.1 as int, cached_position.1 as int)) as int, screen.1 as int) as u16,
    );
    let new_max = (nonneg_u16(position.0 + (size.0 as i16)), nonneg_u16(position.1 + (size.1 as i16)));
    let old_max = (nonneg_u16(cached_position.0 + (cached_size.0 as i16)), nonneg_u16(cached_position.1 + (cached_size.1 as i16)));
    let max = (
        min_int(max_int(new_max.0 as int, old_max.0 as int), screen.0 as int) as u16,
        min_int(max_int(new_max.1 as int, old_max.1 as int), screen.1 as int) as u16,
    );
    if is_translate {
        let pmax = (parent_position.0 + (parent_size.0 as i16), parent_position.1 + (parent_size.1 as i16));
        Viewport {
            min: (
                max_int(min.0 as int, nonneg_u16(parent_position.0 as int) as int) as u16,
                max_int(min.1 as int, nonneg_u16(parent_position.1 as int) as int) as u16,
            ),
            max: (
                min_int(max.0 as int, nonneg_u16(pmax.0) as int) as u16,
                min_int(max.1 as int, nonneg_u16(pmax.1) as int) as u16,
            ),
            screen: cached_viewport.screen,
        }
    } else {
        Viewport { min, max, screen: cached_viewport.screen }
    }
}

/// Returns the viewport to render again after recomputing a node (see
/// [`spec_recompute_viewport`]).
pub fn recompute_viewport(
    cached_viewport: Viewport,
    position: (i16, i16),
    cached_position: (i16, i16),
    size: (u16, u16),
    cached_size: (u16, u16),
    screen: (u16, u16),
    is_translate: bool,
    parent_position: (i16, i16),
    parent_size: (u16, u16),
) -> (r: Viewport)
    requires
        i16::MIN <= position.0 + (size.0 as i16) <= i16::MAX,
        i16::MIN <= position.1 + (size.1 as i16) <= i16::MAX,
        i16::MIN <= cached_position.0 + (cached_size.0 as i16) <= i16::MAX,
        i16::MIN <= cached_position.1 + (cached_size.1 as i16) <= i16::MAX,
        is_translate ==> i16::MIN <= parent_position.0 + (parent_size.0 as i16) <= i16::MAX,
        is_translate ==> i16::MIN <= parent_position.1 + (parent_size.1 as i16) <= i16::MAX,
    ensures
        r == spec_recompute_viewport(cached_viewport, position, cached_position, size, cached_size, screen, is_translate, parent_position, parent_size),
{
    let lx = if position.0 < cached_position.0 { position.0 } else { cached_position.0 };
    let ly = if position.1 < cached_position.1 { position.1 } else { cached_position.1 };
    let lx16: u16 = if lx < 0 { 0 } else { lx as u16 };
    let ly16: u16 = if ly < 0 { 0 } else { ly as u16 };
    let min = (if lx16 < screen.0 { lx16 } else { screen.0 }, if ly16 < screen.1 { ly16 } else { screen.1 });
    let nx = position.0 + size.0 as i16;
    let ny = position.1 + size.1 as i16;
    let ox = cached_position.0 + cached_size.0 as i16;
    let oy = cached_position.1 + cached_size.1 as i16;
    let new_max: (u16, u16) = ((if nx < 0 { 0 } else { nx }) as u16, (if ny < 0 { 0 } else { ny }) as u16);
    let old_max: (u16, u16) = ((if ox < 0 { 0 } else { ox }) as u16, (if oy < 0 { 0 } else { oy }) as u16);
    let mx = if new_max.0 > old_max.0 { new_max.0 } else { old_max.0 };
    let my = if new_max.1 > old_max.1 { new_max.1 } else { old_max.1 };
    let max = (if mx < screen.0 { mx } else { screen.0 }, if my < screen.1 { my } else { screen.1 });
    if is_translate {
        let px: u16 = if parent_position.0 < 0 { 0 } else { parent_position.0 as u16 };
        let py: u16 = if parent_position.1 < 0 { 0 } else { parent_position.1 as u16 };
        let ex = parent_position.0 + parent_size.0 as i16;
        let ey = parent_position.1 + parent_size.1 as i16;
        let ex16: u16 = if ex < 0 { 0 } else { ex as u16 };
        let ey16: u16 = if ey < 0 { 0 } else { ey as u16 };
        Viewport {
            min: (if min.0 > px { min.0 } else { px }, if min.1 > py { min.1 } else { py }),
            max: (if max.0 < ex16 { max.0 } else { ex16 }, if max.1 < ey16 { max.1 } else { ey16 }),
            screen: cached_viewport.screen,
        }
    } else {
        Viewport { min, max, screen: cached_viewport.screen }
    }
}

/// The region rendered again covers every on-screen cell of the node's old rectangle and of its
/// new one (for a relative node, those inside its parent's content), starts no further left or
/// up than where the two rectangles start, and ends no further than where they end, nor past
/// the screen; for a relative node it lies within its parent's content.
pub proof fn lemma_recompute_covers_both(
    cached_viewport: Viewport,
    position: (i16, i16),
    cached_position: (i16, i16),
    size: (u16, u16),
    cached_size: (u16, u16),
    screen: (u16, u16),
    is_translate: bool,
    parent_position: (i16, i16),
    parent_size: (u16, u16),
    x: int,
    y: int,
)
    requires
        i16::MIN <= position.0 + (size.0 as i16) <= i16::MAX,
        i16::MIN <= position.1 + (size.1 as i16) <= i16::MAX,
        i16::MIN <= cached_position.0 + (cached_size.0 as i16) <= i16::MAX,
        i16::MIN <= cached_position.1 + (cached_size.1 as i16) <= i16::MAX,
        is_translate ==> i16::MIN <= parent_position.0 + (parent_size.0 as i16) <= i16::MAX,
        is_translate ==> i16::MIN <= parent_position.1 + (parent_size.1 as i16) <= i16::MAX,
    ensures
        ({
            let r = spec_recompute_viewport(cached_viewport, position, cached_position, size, cached_size, screen, is_translate, parent_position, parent_size);
            let in_new = position.0 <= x < position.0 + (size.0 as i16) && position.1 <= y < position.1 + (size.1 as i16);
            let in_old = cached_position.0 <= x < cached_position.0 + (cached_size.0 as i16)
                && cached_position.1 <= y < cached_position.1 + (cached_size.1 as i16);
            let in_parent = parent_position.0 <= x < parent_position.0 + (parent_size.0 as i16)
                && parent_position.1 <= y < parent_position.1 + (parent_size.1 as i16);
            &&& 0 <= x < screen.0 && 0 <= y < screen.1 && (in_new || in_old) && (is_translate ==> in_parent)
                ==> r.min.0 <= x < r.max.0 && r.min.1 <= y < r.max.1
            &&& !is_translate ==> r.min.0 <= max_int(0, min_int(position.0 as int, cached_position.0 as int))
                && r.min.1 <= max_int(0, min_int(position.1 as int, cached_position.1 as int))
            &&& r.max.0 <= max_int(0, max_int(position.0 + (size.0 as i16), cached_position.0 + (cached_size.0 as i16)))
            &&& r.max.1 <= max_int(0, max_int(position.1 + (size.1 as i16), cached_position.1 + (cached_size.1 as i16)))
            &&& is_translate ==> r.min.0 >= max_int(0, parent_position.0 as int) && r.min.1 >= max_int(0, parent_position.1 as int)
                && r.max.0 <= max_int(0, parent_position.0 + (parent_size.0 as i16))
                && r.max.1 <= max_int(0, parent_position.1 + (parent_size.1 as i16))
            &&& r.max.0 <= screen.0 && r.max.1 <= screen.1
            &&& r.screen == cached_viewport.screen
        }),
{
}

} // verus!
