//! Layout arithmetic of a node: where its children go inside it, the space they leave, and the
//! viewports it and its children are rendered within.
use vstd::prelude::*;
use crate::app::Viewport;
use crate::style::alignment::{Justify, clamp_non_negative, div_i16, div_trunc};
use crate::style::node_style::{Style, longest, sat_add, sat_sub};
use crate::text::lines::lines_of;
use crate::style::{Size, SizeValue};

verus! {

/// `v` clamped below at zero, then cut to 16 bits.
pub open spec fn nonneg_u16(v: int) -> u16 {
    (if v < 0 { 0 } else { v }) as u16
}

/// The smaller of two values.
pub open spec fn min_int(a: int, b: int) -> int {
    if a <= b { a } else { b }
}

/// The larger of two values.
pub open spec fn max_int(a: int, b: int) -> int {
    if a >= b { a } else { b }
}

/// Cursor position for focus: the text cursor relative to the start of the node's content
/// (after the left and top padding and borders), or that start, clamped at zero.
pub open spec fn spec_focus_cursor(position: (i16, i16), style: Style, cursor: Option<(u16, u16)>) -> (u16, u16) {
    let x = position.0 + (if style.border.2 { 1int } else { 0 }) + style.padding.left;
    let y = position.1 + (if style.border.0 { 1int } else { 0 }) + style.padding.top;
    match cursor {
        Some((cx, cy)) => (nonneg_u16(x + cx), nonneg_u16(y + cy)),
        None => (nonneg_u16(x), nonneg_u16(y)),
    }
}

/// Returns the focus cursor position of a node at `position`: the text's cursor position, or
/// the content-start of the node's canvas.
pub fn focus_cursor_position(position: (i16, i16), style: &Style, cursor: Option<(u16, u16)>) -> (r: (u16, u16))
    requires
        (if style.border.2 { 1int } else { 0 }) + style.padding.left <= u16::MAX,
        (if style.border.0 { 1int } else { 0 }) + style.padding.top <= u16::MAX,
    ensures
        r == spec_focus_cursor(position, *style, cursor),
{
    let xw = (if style.border.2 { 1u16 } else { 0 }) + style.padding.left;
    let xh = (if style.border.0 { 1u16 } else { 0 }) + style.padding.top;
    let x = position.0 as i32 + xw as i32;
    let y = position.1 as i32 + xh as i32;
    match cursor {
        Some((cx, cy)) => {
            let a = x + cx as i32;
            let b = y + cy as i32;
            ((if a < 0 { 0 } else { a }) as u16, (if b < 0 { 0 } else { b }) as u16)
        },
        None => ((if x < 0 { 0 } else { x }) as u16, (if y < 0 { 0 } else { y }) as u16),
    }
}

/// Primitive calculation of `pos - position`, clamped to 0
pub fn relative_position(position: (i16, i16), x: i16, y: i16) -> (r: (u16, u16))
    requires
        i16::MIN <= x - position.0 <= i16::MAX,
        i16::MIN <= y - position.1 <= i16::MAX,
    ensures
        r == (nonneg_u16(x - position.0), nonneg_u16(y - position.1)),
{
    let dx = x - position.0;
    let dy = y - position.1;
    ((if dx < 0 { 0 } else { dx }) as u16, (if dy < 0 { 0 } else { dy }) as u16)
}

/// The content size left to children: the size minus the gaps between the `translated`
/// children placed in the flex direction.
pub open spec fn spec_available_content_size(style: Style, translated: usize) -> Size {
    let gap_count = (if translated > 0 { translated - 1 } else { 0 }) as u16;
    let (gap_column, gap_row) = style.gap;
    let size = style.size;
    if style.flex_row && gap_column > 0 {
        Size {
            width: size.width.spec_set_computed_size(sat_sub(size.width.spec_computed_size() as int, gap_column * gap_count)),
            ..size
        }
    } else if !style.flex_row && gap_row > 0 {
        Size {
            height: size.height.spec_set_computed_size(sat_sub(size.height.spec_computed_size() as int, gap_row * gap_count)),
            ..size
        }
    } else {
        size
    }
}

/// Returns the available content size of a node with `translated` relatively placed children:
/// the content size minus any gaps.
pub fn available_content_size(style: &Style, translated: usize) -> (r: Size)
    requires
        ({
            let gap_count = (if translated > 0 { translated - 1 } else { 0 }) as u16;
            &&& style.flex_row ==> style.gap.0 * gap_count <= u16::MAX
            &&& !style.flex_row ==> style.gap.1 * gap_count <= u16::MAX
        }),
    ensures
        r == spec_available_content_size(*style, translated),
{
    let gap_count = (if translated > 0 { translated - 1 } else { 0 }) as u16;
    let (gap_column, gap_row) = style.gap;
    let mut size = style.size;
    if style.flex_row && gap_column > 0 {
        let gaps = gap_column * gap_count;
        size.width = size.width.set_computed_size(size.width.computed_size().saturating_sub(gaps));
    } else if !style.flex_row && gap_row > 0 {
        let gaps = gap_row * gap_count;
        size.height = size.height.set_computed_size(size.height.computed_size().saturating_sub(gaps));
    }
    size
}

/// Number of relatively placed children and their summed total size in the flex direction
/// (saturated).
pub open spec fn spec_relative_children(flex_row: bool, children: Seq<(bool, (u16, u16))>) -> (nat, u16)
    decreases children.len(),
{
    if children.len() == 0 {
        (0, 0)
    } else {
        let (count, sum) = spec_relative_children(flex_row, children.drop_last());
        let (is_absolute, (w, h)) = children.last();
        if is_absolute {
            (count, sum)
        } else {
            (count + 1, sat_add(sum as int, if flex_row { w as int } else { h as int }))
        }
    }
}

/// Returns the data needed to justify content: the number of relatively placed children and
/// their summed width or height (in the flex direction), from each child's `(is_absolute,
/// (total_width, total_height))`.
pub fn justify_relative_children_data(flex_row: bool, children: &Vec<(bool, (u16, u16))>) -> (r: (usize, u16))
    ensures
        r.0 == spec_relative_children(flex_row, children@).0,
        r.1 == spec_relative_children(flex_row, children@).1,
{
    let mut width: u16 = 0;
    let mut height: u16 = 0;
    let mut count: usize = 0;
    let mut i: usize = 0;
    while i < children.len()
        invariant
            i <= children@.len(),
            count <= i,
            count == spec_relative_children(flex_row, children@.take(i as int)).0,
            (if flex_row { width } else { height }) == spec_relative_children(flex_row, children@.take(i as int)).1,
        decreases children@.len() - i,
    {
        proof {
            assert(children@.take(i + 1).drop_last() =~= children@.take(i as int));
            assert(children@.take(i + 1).last() == children@[i as int]);
        }
        let (is_absolute, (w, h)) = children[i];
        if !is_absolute {
            width = width.saturating_add(w);
            height = height.saturating_add(h);
            count = count + 1;
        }
        i = i + 1;
    }
    proof {
        assert(children@.take(i as int) =~= children@);
    }
    if flex_row {
        (count, width)
    } else {
        (count, height)
    }
}

/// The space left in the flex direction after the relative children and the gaps between them.
pub open spec fn spec_free_content_size(style: Style, count: usize, children_size: u16) -> int {
    let gap_count = (if count > 0 { count - 1 } else { 0 }) as i16;
    if style.flex_row {
        ((style.spec_clamped_width() - children_size) as i16) - gap_count * (style.gap.0 as i16)
    } else {
        ((style.spec_clamped_height() - children_size) as i16) - gap_count * (style.gap.1 as i16)
    }
}

/// Returns the free content size of a node: its clamped size in the flex direction minus the
/// size of its relative children and of the gaps between them.
pub fn free_content_size(style: &Style, count: usize, children_size: u16) -> (r: i16)
    requires
        ({
            let gap_count = (if count > 0 { count - 1 } else { 0 }) as i16;
            let gap = if style.flex_row { style.gap.0 as i16 } else { style.gap.1 as i16 };
            let base = if style.flex_row {
                ((style.spec_clamped_width() - children_size) as i16) as int
            } else {
                ((style.spec_clamped_height() - children_size) as i16) as int
            };
            &&& i16::MIN <= gap_count * gap <= i16::MAX
            &&& i16::MIN <= base - gap_count * gap <= i16::MAX
        }),
    ensures
        r == spec_free_content_size(*style, count, children_size),
{
    let gap_count = (if count > 0 { count - 1 } else { 0 }) as i16;
    if style.flex_row {
        let free = (style.clamped_width() as i32 - children_size as i32) as i16;
        free - gap_count * style.gap.0 as i16
    } else {
        let free = (style.clamped_height() as i32 - children_size as i32) as i16;
        free - gap_count * style.gap.1 as i16
    }
}

/// Where the first child starts, relative to the node's content. Across the flex direction of
/// a row layout, and along it for Start and the spaced justifications, it starts below the
/// text (and a row gap after non-empty text); SpaceAround adds a share of the free space along
/// the flex direction. For End and Center the coordinate along the flex direction is the free
/// space, or half of it, alone: in a column layout it replaces the text height.
pub open spec fn spec_start_offset(style: Style, justify: Justify, text_height: i16, free: i16, count: usize) -> (int, int) {
    let gap_row = (style.gap.1 as i16) * (if text_height > 0 { 1int } else { 0 });
    let base = (0int, text_height + gap_row);
    let main = match justify {
        Justify::End => Some(free as int),
        Justify::Center => Some(div_trunc(free as int, 2)),
        _ => None,
    };
    match main {
        Some(m) => if style.flex_row { (m, base.1) } else { (base.0, m) },
        None => if justify is SpaceAround {
            let start = clamp_non_negative(div_trunc(free as int, ((count + 1) as i16) as int));
            if style.flex_row { (base.0 + start, base.1) } else { (base.0, base.1 + start) }
        } else {
            base
        },
    }
}

/// Returns the offset of the first child of a node whose text is `text_height` lines high,
/// with `free` free space and `count` relative children.
pub fn start_offset(style: &Style, justify: Justify, text_height: i16, free: i16, count: usize) -> (r: (i16, i16))
    requires
        i16::MIN <= (style.gap.1 as i16) * (if text_height > 0 { 1int } else { 0 }) <= i16::MAX,
        i16::MIN <= text_height + (style.gap.1 as i16) * (if text_height > 0 { 1int } else { 0 }) <= i16::MAX,
        justify is SpaceAround ==> {
            &&& count < usize::MAX
            &&& ((count + 1) as i16) != 0
            &&& !(free == i16::MIN && ((count + 1) as i16) == -1)
            &&& i16::MIN <= (if style.flex_row { 0 } else { text_height + (style.gap.1 as i16) * (if text_height > 0 { 1int } else { 0 }) })
                + clamp_non_negative(div_trunc(free as int, ((count + 1) as i16) as int)) <= i16::MAX
        },
    ensures
        r.0 == spec_start_offset(*style, justify, text_height, free, count).0,
        r.1 == spec_start_offset(*style, justify, text_height, free, count).1,
{
    let gap_row = style.gap.1 as i16 * (if text_height > 0 { 1 } else { 0 });
    let mut extra: (i16, i16) = (0, text_height + gap_row);
    if justify.is_end() {
        if style.flex_row {
            extra.0 = free;
        } else {
            extra.1 = free;
        }
    } else if justify.is_center() {
        let half = div_i16(free, 2);
        if style.flex_row {
            extra.0 = half;
        } else {
            extra.1 = half;
        }
    } else if justify.is_space_around() {
        let q = div_i16(free, (count + 1) as i16);
        let start = if q < 0 { 0 } else { q };
        if style.flex_row {
            extra.0 = extra.0 + start;
        } else {
            extra.1 = extra.1 + start;
        }
    }
    extra
}

/// How far the next child starts after a relative child of canvas size `(width, height)`: its
/// size and the gap in the flex direction, plus the justification's share of the free space
/// for spaced justifications.
pub open spec fn spec_child_advance(style: Style, justify: Justify, free: i16, count: usize, child: (usize, usize)) -> int {
    let step = if style.flex_row {
        (child.0 as i16) + (style.gap.0 as i16)
    } else {
        (child.1 as i16) + (style.gap.1 as i16)
    };
    let spaced = justify is SpaceBetween || justify is SpaceAround || justify is SpaceEvenly;
    if spaced {
        let divisor = ((count as int + if justify is SpaceAround { 1int } else { -1int }) as i16) as int;
        step + clamp_non_negative(div_trunc(free as int, divisor))
    } else {
        step
    }
}

/// Returns how far the next child starts after a relative child of canvas size `child`.
pub fn child_advance(style: &Style, justify: Justify, free: i16, count: usize, child: (usize, usize)) -> (r: i16)
    requires
        ({
            let step = if style.flex_row {
                (child.0 as i16) + (style.gap.0 as i16)
            } else {
                (child.1 as i16) + (style.gap.1 as i16)
            };
            let spaced = justify is SpaceBetween || justify is SpaceAround || justify is SpaceEvenly;
            let divisor = ((count as int + if justify is SpaceAround { 1int } else { -1int }) as i16) as int;
            &&& i16::MIN <= step <= i16::MAX
            &&& spaced ==> count < isize::MAX && divisor != 0 && !(free == i16::MIN && divisor == -1)
                && i16::MIN <= step + clamp_non_negative(div_trunc(free as int, divisor)) <= i16::MAX
        }),
    ensures
        r == spec_child_advance(*style, justify, free, count, child),
{
    let step = if style.flex_row {
        child.0 as i16 + style.gap.0 as i16
    } else {
        child.1 as i16 + style.gap.1 as i16
    };
    if justify.is_spaced() {
        let adjust: isize = if justify.is_space_around() { 1 } else { -1 };
        let divisor = (count as isize + adjust) as i16;
        let q = div_i16(free, divisor);
        let share = if q < 0 { 0 } else { q };
        step + share
    } else {
        step
    }
}

/// Along the flex direction, whatever that direction is, the first child of a centered node
/// starts half the free space in (rounded toward zero) and that of an end-justified node after
/// all of it; across the flex direction both keep the start-justified offset, which is zero in
/// a row. SpaceBetween and SpaceEvenly start where Start does, and SpaceAround a share of the
/// free space further along: the free space divided (toward zero) by one more than the number
/// of children, never negative. In a row with free space, the centered start lies between the
/// start-justified one and the end-justified one.
pub proof fn lemma_start_offset_main_axis(style: Style, text_height: i16, free: i16, count: usize)
    ensures
        ({
            let start = spec_start_offset(style, Justify::Start, text_height, free, count);
            let center = spec_start_offset(style, Justify::Center, text_height, free, count);
            let end = spec_start_offset(style, Justify::End, text_height, free, count);
            &&& style.flex_row ==> start.0 == 0 && center == (div_trunc(free as int, 2), start.1)
                && end == (free as int, start.1)
            &&& !style.flex_row ==> start.0 == 0 && center == (0int, div_trunc(free as int, 2))
                && end == (0int, free as int)
            &&& style.flex_row && 0 <= free ==> start.0 <= center.0 <= end.0
            &&& spec_start_offset(style, Justify::SpaceBetween, text_height, free, count) == start
            &&& spec_start_offset(style, Justify::SpaceEvenly, text_height, free, count) == start
            &&& ({
                let around = spec_start_offset(style, Justify::SpaceAround, text_height, free, count);
                let share = clamp_non_negative(div_trunc(free as int, ((count + 1) as i16) as int));
                if style.flex_row {
                    around == (start.0 + share, start.1)
                } else {
                    around == (start.0, start.1 + share)
                }
            })
        }),
{
}

/// Below empty text, the first child's offset does not depend on the flex direction except
/// through which coordinate is along it: a row's offset is a column's with its two
/// coordinates swapped, for every justification.
pub proof fn lemma_start_offset_direction_symmetry(row: Style, column: Style, justify: Justify, free: i16, count: usize)
    requires
        row.flex_row,
        !column.flex_row,
    ensures
        spec_start_offset(row, justify, 0, free, count).0 == spec_start_offset(column, justify, 0, free, count).1,
        spec_start_offset(row, justify, 0, free, count).1 == spec_start_offset(column, justify, 0, free, count).0,
{
}

/// For a spaced justification the next child starts after the child's size and the gap in the
/// flex direction plus a share of the free space: the free space divided (toward zero) by one
/// less than the number of children (one more for SpaceAround), never negative. Otherwise it
/// starts right after the size and the gap.
pub proof fn lemma_child_advance_share(style: Style, justify: Justify, free: i16, count: usize, child: (usize, usize))
    ensures
        ({
            let step = if style.flex_row {
                (child.0 as i16) + (style.gap.0 as i16)
            } else {
                (child.1 as i16) + (style.gap.1 as i16)
            };
            let advance = spec_child_advance(style, justify, free, count, child);
            &&& justify is SpaceBetween || justify is SpaceEvenly ==> advance == step
                + clamp_non_negative(div_trunc(free as int, ((count as int - 1) as i16) as int))
            &&& justify is SpaceAround ==> advance == step
                + clamp_non_negative(div_trunc(free as int, ((count as int + 1) as i16) as int))
            &&& justify is Start || justify is Center || justify is End ==> advance == step
            &&& advance >= step
        }),
{
}

/// The advance after a child does not depend on the flex direction except through which size
/// and gap are along it: in a row, a child `(w, h)` with column gap `g` advances as far as a
/// child `(h, w)` with row gap `g` does in a column.
pub proof fn lemma_child_advance_direction_symmetry(
    row: Style,
    column: Style,
    justify: Justify,
    free: i16,
    count: usize,
    child: (usize, usize),
)
    requires
        row.flex_row,
        !column.flex_row,
        row.gap.0 == column.gap.1,
    ensures
        spec_child_advance(row, justify, free, count, child) == spec_child_advance(column, justify, free, count, (child.1, child.0)),
{
}

/// The point where a node's total size ends, clamped at zero.
pub open spec fn spec_node_end(position: (i16, i16), style: Style) -> (u16, u16) {
    (nonneg_u16(position.0 + (style.spec_total_width() as i16)), nonneg_u16(position.1 + (style.spec_total_height() as i16)))
}

/// The viewport a node at `position` is rendered (and hit-tested) within: it starts at the
/// node's position (not before its parent's viewport for a relative node) and ends at the
/// node's total size, within the screen for an absolute node, else within the parent's
/// viewport.
pub open spec fn spec_own_viewport(viewport: Viewport, position: (i16, i16), style: Style, is_absolute: bool) -> Viewport {
    let own_min = if is_absolute {
        (nonneg_u16(position.0 as int), nonneg_u16(position.1 as int))
    } else {
        (
            max_int(nonneg_u16(position.0 as int) as int, viewport.min.0 as int) as u16,
            max_int(nonneg_u16(position.1 as int) as int, viewport.min.1 as int) as u16,
        )
    };
    let max = spec_node_end(position, style);
    let abs_max = if is_absolute { viewport.screen } else { viewport.max };
    Viewport {
        min: own_min,
        max: (min_int(max.0 as int, abs_max.0 as int) as u16, min_int(max.1 as int, abs_max.1 as int) as u16),
        screen: viewport.screen,
    }
}

/// How far the node's viewport starts after its position, clamped to `0..=u16::MAX`.
pub open spec fn spec_underflow(own: Viewport, position: (i16, i16)) -> (u16, u16) {
    (
        min_int(max_int(own.min.0 - position.0, 0), u16::MAX as int) as u16,
        min_int(max_int(own.min.1 - position.1, 0), u16::MAX as int) as u16,
    )
}

/// The viewport the children of a node are rendered within: the node's viewport without its
/// padding and borders, except where the node overflows the screen or its parent's viewport,
/// or starts before its viewport.
pub open spec fn spec_child_viewport(own: Viewport, position: (i16, i16), style: Style) -> Viewport {
    let max = spec_node_end(position, style);
    let total_width = style.spec_total_width();
    let total_height = style.spec_total_height();
    let screen_overflow = (sat_sub(max.0 as int, own.screen.0 as int), sat_sub(max.1 as int, own.screen.1 as int));
    let span = (sat_sub(own.max.0 as int, own.min.0 as int), sat_sub(own.max.1 as int, own.min.1 as int));
    let parent_overflow = (sat_sub(total_width as int, span.0 as int), sat_sub(total_height as int, span.1 as int));
    let underflow = spec_underflow(own, position);
    let overflow = (
        sat_sub(max_int(screen_overflow.0 as int, parent_overflow.0 as int), underflow.0 as int),
        sat_sub(max_int(screen_overflow.1 as int, parent_overflow.1 as int), underflow.1 as int),
    );
    let right = style.padding.right + (if style.border.3 { 1int } else { 0 });
    let bottom = style.padding.bottom + (if style.border.1 { 1int } else { 0 });
    let left = style.padding.left + (if style.border.2 { 1int } else { 0 });
    let top = style.padding.top + (if style.border.0 { 1int } else { 0 });
    Viewport {
        min: ((own.min.0 + sat_sub(left, underflow.0 as int)) as u16, (own.min.1 + sat_sub(top, underflow.1 as int)) as u16),
        max: (
            sat_sub(own.max.0 as int, sat_sub(right, overflow.0 as int) as int),
            sat_sub(own.max.1 as int, sat_sub(bottom, overflow.1 as int) as int),
        ),
        screen: own.screen,
    }
}

/// The arithmetic of the node viewports stays within its integer types.
pub open spec fn node_viewports_defined(viewport: Viewport, position: (i16, i16), style: Style, is_absolute: bool) -> bool {
    let own = spec_own_viewport(viewport, position, style, is_absolute);
    let underflow = spec_underflow(own, position);
    &&& style.padding_fits()
    &&& i16::MIN <= position.0 + (style.spec_total_width() as i16) <= i16::MAX
    &&& i16::MIN <= position.1 + (style.spec_total_height() as i16) <= i16::MAX
    &&& style.padding.right + (if style.border.3 { 1int } else { 0 }) <= u16::MAX
    &&& style.padding.bottom + (if style.border.1 { 1int } else { 0 }) <= u16::MAX
    &&& style.padding.left + (if style.border.2 { 1int } else { 0 }) <= u16::MAX
    &&& style.padding.top + (if style.border.0 { 1int } else { 0 }) <= u16::MAX
    &&& own.min.0 + sat_sub(style.padding.left + (if style.border.2 { 1int } else { 0 }), underflow.0 as int) <= u16::MAX
    &&& own.min.1 + sat_sub(style.padding.top + (if style.border.0 { 1int } else { 0 }), underflow.1 as int) <= u16::MAX
}

fn clamp_u16(v: i32) -> (r: u16)
    requires
        0 <= v <= u16::MAX,
    ensures
        r == v,
{
    v as u16
}

fn node_end(position: (i16, i16), style: &Style) -> (r: (u16, u16))
    requires
        style.padding_fits(),
        i16::MIN <= position.0 + (style.spec_total_width() as i16) <= i16::MAX,
        i16::MIN <= position.1 + (style.spec_total_height() as i16) <= i16::MAX,
    ensures
        r == spec_node_end(position, *style),
{
    let ex = position.0 + style.total_width() as i16;
    let ey = position.1 + style.total_height() as i16;
    ((if ex < 0 { 0 } else { ex }) as u16, (if ey < 0 { 0 } else { ey }) as u16)
}

fn own_viewport(viewport: Viewport, position: (i16, i16), style: &Style, is_absolute: bool) -> (r: Viewport)
    requires
        style.padding_fits(),
        i16::MIN <= position.0 + (style.spec_total_width() as i16) <= i16::MAX,
        i16::MIN <= position.1 + (style.spec_total_height() as i16) <= i16::MAX,
    ensures
        r == spec_own_viewport(viewport, position, *style, is_absolute),
{
    let px: u16 = if position.0 < 0 { 0 } else { position.0 as u16 };
    let py: u16 = if position.1 < 0 { 0 } else { position.1 as u16 };
    let min: (u16, u16) = if is_absolute {
        (px, py)
    } else {
        (if px > viewport.min.0 { px } else { viewport.min.0 }, if py > viewport.min.1 { py } else { viewport.min.1 })
    };
    let max = node_end(position, style);
    let abs_max = if is_absolute { viewport.screen } else { viewport.max };
    Viewport {
        min,
        max: (if max.0 < abs_max.0 { max.0 } else { abs_max.0 }, if max.1 < abs_max.1 { max.1 } else { abs_max.1 }),
        screen: viewport.screen,
    }
}

#[verifier::rlimit(60)]
fn child_viewport(own: Viewport, position: (i16, i16), style: &Style) -> (r: Viewport)
    requires
        style.padding_fits(),
        i16::MIN <= position.0 + (style.spec_total_width() as i16) <= i16::MAX,
        i16::MIN <= position.1 + (style.spec_total_height() as i16) <= i16::MAX,
        style.padding.right + (if style.border.3 { 1int } else { 0 }) <= u16::MAX,
        style.padding.bottom + (if style.border.1 { 1int } else { 0 }) <= u16::MAX,
        style.padding.left + (if style.border.2 { 1int } else { 0 }) <= u16::MAX,
        style.padding.top + (if style.border.0 { 1int } else { 0 }) <= u16::MAX,
        own.min.0 + sat_sub(style.padding.left + (if style.border.2 { 1int } else { 0 }), spec_underflow(own, position).0 as int) <= u16::MAX,
        own.min.1 + sat_sub(style.padding.top + (if style.border.0 { 1int } else { 0 }), spec_underflow(own, position).1 as int) <= u16::MAX,
    ensures
        r == spec_child_viewport(own, position, *style),
{
    let max = node_end(position, style);
    let total_width = style.total_width();
    let total_height = style.total_height();
    let screen_overflow = (max.0.saturating_sub(own.screen.0), max.1.saturating_sub(own.screen.1));
    let span = (own.max.0.saturating_sub(own.min.0), own.max.1.saturating_sub(own.min.1));
    let parent_overflow = (total_width.saturating_sub(span.0), total_height.saturating_sub(span.1));
    let ux = own.min.0 as i32 - position.0 as i32;
    let uy = own.min.1 as i32 - position.1 as i32;
    let underflow: (u16, u16) = (
        clamp_u16(if ux < 0 { 0 } else if ux > 65535 { 65535 } else { ux }),
        clamp_u16(if uy < 0 { 0 } else if uy > 65535 { 65535 } else { uy }),
    );
    let over_x = if screen_overflow.0 > parent_overflow.0 { screen_overflow.0 } else { parent_overflow.0 };
    let over_y = if screen_overflow.1 > parent_overflow.1 { screen_overflow.1 } else { parent_overflow.1 };
    let overflow = (over_x.saturating_sub(underflow.0), over_y.saturating_sub(underflow.1));
    let right = style.padding.right + (if style.border.3 { 1 } else { 0 });
    let bottom = style.padding.bottom + (if style.border.1 { 1 } else { 0 });
    let left = style.padding.left + (if style.border.2 { 1 } else { 0 });
    let top = style.padding.top + (if style.border.0 { 1 } else { 0 });
    Viewport {
        min: (own.min.0 + left.saturating_sub(underflow.0), own.min.1 + top.saturating_sub(underflow.1)),
        max: (own.max.0.saturating_sub(right.saturating_sub(overflow.0)), own.max.1.saturating_sub(bottom.saturating_sub(overflow.1))),
        screen: own.screen,
    }
}

/// Returns the viewport a node at `position` renders within and the viewport of its
/// children, from its parent's viewport.
pub fn node_viewports(viewport: Viewport, position: (i16, i16), style: &Style, is_absolute: bool) -> (r: (Viewport, Viewport))
    requires
        node_viewports_defined(viewport, position, *style, is_absolute),
    ensures
        r.0 == spec_own_viewport(viewport, position, *style, is_absolute),
        r.1 == spec_child_viewport(r.0, position, *style),
{
    let own = own_viewport(viewport, position, style, is_absolute);
    let child = child_viewport(own, position, style);
    (own, child)
}

/// The size a node accumulates from a child of size `child`: in the flex direction the sizes
/// add up (with a gap after the first child), across it the larger one is kept.
pub open spec fn spec_accumulate(flex_row: bool, gap: (u16, u16), had_first: bool, size: (u16, u16), child: (u16, u16)) -> (int, int) {
    if flex_row {
        (size.0 + child.0 + gap.0 * (if had_first { 1int } else { 0 }), max_int(size.1 as int, child.1 as int))
    } else {
        (max_int(size.0 as int, child.0 as int), size.1 + child.1 + gap.1 * (if had_first { 1int } else { 0 }))
    }
}

/// Accumulates a child's size into a node's size, as the auto-size steps do.
pub fn accumulate_child_size(flex_row: bool, gap: (u16, u16), had_first: bool, size: (u16, u16), child: (u16, u16)) -> (r: (u16, u16))
    requires
        flex_row ==> size.0 + child.0 + gap.0 * (if had_first { 1int } else { 0 }) <= u16::MAX,
        !flex_row ==> size.1 + child.1 + gap.1 * (if had_first { 1int } else { 0 }) <= u16::MAX,
    ensures
        r.0 == spec_accumulate(flex_row, gap, had_first, size, child).0,
        r.1 == spec_accumulate(flex_row, gap, had_first, size, child).1,
{
    let first: u16 = if had_first { 1 } else { 0 };
    if flex_row {
        (size.0 + (child.0 + gap.0 * first), if size.1 >= child.1 { size.1 } else { child.1 })
    } else {
        (if size.0 >= child.0 { size.0 } else { child.0 }, size.1 + (child.1 + gap.1 * first))
    }
}

/// The size after an auto-size step: each auto-sized dimension takes the accumulated size,
/// the others keep theirs.
pub open spec fn spec_auto_sized(size: Size, accumulated: (u16, u16)) -> Size {
    Size {
        width: if size.width is Auto { size.width.spec_set_computed_size(accumulated.0) } else { size.width },
        height: if size.height is Auto { size.height.spec_set_computed_size(accumulated.1) } else { size.height },
    }
}

/// Gives the auto-sized dimensions of `size` the accumulated size of the node's content.
pub fn apply_auto_size(size: Size, accumulated: (u16, u16)) -> (r: Size)
    ensures
        r == spec_auto_sized(size, accumulated),
{
    let mut r = size;
    if size.width.is_auto() {
        r.width = size.width.set_computed_size(accumulated.0);
    }
    if size.height.is_auto() {
        r.height = size.height.set_computed_size(accumulated.1);
    }
    r
}

/// The height of a node's content once its text is added below its children: the text's
/// height, and a row gap between the children and a non-empty text.
pub fn add_text_height(height: u16, text_height: u16, gap_row: u16, had_first: bool) -> (r: u16)
    requires
        height + text_height + (if had_first && text_height > 0 { gap_row as int } else { 0 }) <= u16::MAX,
    ensures
        r == height + text_height + (if had_first && text_height > 0 { gap_row as int } else { 0 }),
{
    let gap = if had_first && text_height > 0 { gap_row } else { 0 };
    height + (text_height + gap)
}

/// The size accumulated from `size` over the children given as `(is_absolute, (width,
/// height))`: absolute children are skipped; in the flex direction the sizes add up, with a gap
/// before each child after the first relative one; across it the largest size counts.
pub open spec fn accumulated(flex_row: bool, gap: (u16, u16), size: (int, int), children: Seq<(bool, (u16, u16))>, had_first: bool) -> (int, int)
    decreases children.len(),
{
    if children.len() == 0 {
        size
    } else {
        let (is_absolute, c) = children[0];
        if is_absolute {
            accumulated(flex_row, gap, size, children.drop_first(), had_first)
        } else {
            let step = if had_first { 1int } else { 0 };
            let next = if flex_row {
                (size.0 + c.0 + gap.0 * step, max_int(size.1, c.1 as int))
            } else {
                (max_int(size.0, c.0 as int), size.1 + c.1 + gap.1 * step)
            };
            accumulated(flex_row, gap, next, children.drop_first(), true)
        }
    }
}

/// Some child is placed relatively.
pub open spec fn has_relative(children: Seq<(bool, (u16, u16))>) -> bool {
    exists|i: int| 0 <= i < children.len() && !(#[trigger] children[i]).0
}

/// The size in the flex direction only grows while children are accumulated, and the size
/// across it never goes below where it started.
proof fn lemma_accumulated_grows(flex_row: bool, gap: (u16, u16), size: (int, int), children: Seq<(bool, (u16, u16))>, had_first: bool, k: int)
    requires
        0 <= k <= children.len(),
    ensures
        ({
            let part = accumulated(flex_row, gap, size, children.take(k), had_first);
            let all = accumulated(flex_row, gap, size, children, had_first);
            &&& flex_row ==> size.0 <= part.0 <= all.0 && part.1 <= all.1 && size.1 <= part.1
            &&& !flex_row ==> size.1 <= part.1 <= all.1 && part.0 <= all.0 && size.0 <= part.0
        }),
    decreases children.len(),
{
    if children.len() > 0 {
        let (is_absolute, c) = children[0];
        let rest = children.drop_first();
        let step = if had_first { 1int } else { 0 };
        let next = if is_absolute {
            size
        } else if flex_row {
            (size.0 + c.0 + gap.0 * step, max_int(size.1, c.1 as int))
        } else {
            (max_int(size.0, c.0 as int), size.1 + c.1 + gap.1 * step)
        };
        let nf = if is_absolute { had_first } else { true };
        if k == 0 {
            assert(children.take(0) =~= Seq::<(bool, (u16, u16))>::empty());
            lemma_accumulated_grows(flex_row, gap, next, rest, nf, 0);
            assert(rest.take(0) =~= Seq::<(bool, (u16, u16))>::empty());
        } else {
            lemma_accumulated_grows(flex_row, gap, next, rest, nf, k - 1);
            assert(children.take(k).drop_first() =~= rest.take(k - 1));
            assert(children.take(k)[0] == children[0]);
        }
    }
}

/// Accumulates the sizes of the children into `size` (see [`accumulated`]); also tells
/// whether some child is placed relatively.
pub fn accumulate_children(flex_row: bool, gap: (u16, u16), size: (u16, u16), children: &Vec<(bool, (u16, u16))>) -> (r: ((u16, u16), bool))
    requires
        ({
            let all = accumulated(flex_row, gap, (size.0 as int, size.1 as int), children@, false);
            if flex_row { all.0 <= u16::MAX } else { all.1 <= u16::MAX }
        }),
    ensures
        (r.0.0 as int, r.0.1 as int) == accumulated(flex_row, gap, (size.0 as int, size.1 as int), children@, false),
        r.1 == has_relative(children@),
{
    let ghost start = (size.0 as int, size.1 as int);
    let mut acc = size;
    let mut had_first = false;
    let mut i: usize = 0;
    proof {
        assert(children@.skip(0) =~= children@);
    }
    while i < children.len()
        invariant
            i <= children@.len(),
            accumulated(flex_row, gap, start, children@, false) == accumulated(
                flex_row,
                gap,
                (acc.0 as int, acc.1 as int),
                children@.skip(i as int),
                had_first,
            ),
            ({
                let all = accumulated(flex_row, gap, start, children@, false);
                if flex_row { all.0 <= u16::MAX } else { all.1 <= u16::MAX }
            }),
            had_first == exists|j: int| 0 <= j < i && !(#[trigger] children@[j]).0,
        decreases children@.len() - i,
    {
        let ghost rest = children@.skip(i as int);
        proof {
            assert(rest[0] == children@[i as int]);
            assert(rest.drop_first() =~= children@.skip(i + 1));
            lemma_accumulated_grows(flex_row, gap, (acc.0 as int, acc.1 as int), rest, had_first, 1);
            assert(rest.take(1) =~= seq![rest[0]]);
            assert(seq![rest[0]].drop_first() =~= Seq::<(bool, (u16, u16))>::empty());
            reveal_with_fuel(accumulated, 2);
        }
        let (is_absolute, c) = children[i];
        if !is_absolute {
            acc = accumulate_child_size(flex_row, gap, had_first, acc, c);
            had_first = true;
        }
        i = i + 1;
        proof {
            assert(had_first == exists|j: int| 0 <= j < i && !(#[trigger] children@[j]).0) by {
                if !is_absolute {
                    assert(!children@[i - 1].0);
                }
            }
        }
    }
    (acc, had_first)
}

/// A node's auto and intrinsic size: the intrinsic size of its text first, then the children's
/// unclamped total sizes (given as `(is_absolute, (width, height))`) accumulated into it (see
/// [`accumulated`]); each auto-sized dimension takes the result. Nothing is clamped.
pub fn auto_intrinsic_size(style: &mut Style, text: &str, children: &Vec<(bool, (u16, u16))>)
    requires
        lines_of(text@).len() <= u16::MAX,
        old(style).size.width is Auto ==> longest(lines_of(text@)) <= u16::MAX,
        ({
            let s = old(style).spec_intrinsic_sized(text@);
            let start = (s.size.width.spec_computed_size() as int, s.size.height.spec_computed_size() as int);
            let all = accumulated(s.flex_row, s.gap, start, children@, false);
            if s.flex_row { all.0 <= u16::MAX } else { all.1 <= u16::MAX }
        }),
    ensures
        ({
            let s = old(style).spec_intrinsic_sized(text@);
            let start = (s.size.width.spec_computed_size() as int, s.size.height.spec_computed_size() as int);
            let all = accumulated(s.flex_row, s.gap, start, children@, false);
            *final(style) == Style { size: spec_auto_sized(s.size, (all.0 as u16, all.1 as u16)), ..s }
        }),
{
    style.compute_intrinsic_size(text);
    let size = (style.size.width.computed_size(), style.size.height.computed_size());
    let (acc, _) = accumulate_children(style.flex_row, style.gap, size, children);
    style.size = apply_auto_size(style.size, acc);
}

/// The children's sizes with the width (height) taken as zero where `zero_width`
/// (`zero_height`) holds.
pub open spec fn zeroed(children: Seq<(bool, (u16, u16))>, zero_width: bool, zero_height: bool) -> Seq<(bool, (u16, u16))> {
    children.map_values(|c: (bool, (u16, u16))| (c.0, (if zero_width { 0u16 } else { c.1.0 }, if zero_height { 0u16 } else { c.1.1 })))
}

/// A node's size after the percentage step: its text size and the children's clamped total
/// sizes (given as `(is_absolute, (width, height))`, counting as zero in a dimension where the
/// node's own size is a percentage) are accumulated from the text's width (see
/// [`accumulated`]); the text's height is added below the children (with a row gap after
/// them); each auto-sized dimension takes the result, and the size is clamped between the
/// minimum and maximum sizes.
pub fn percentage_auto_size(style: &mut Style, text_size: (u16, u16), children: &Vec<(bool, (u16, u16))>)
    requires
        ({
            let kids = zeroed(children@, old(style).size.width is Percent, old(style).size.height is Percent);
            let all = accumulated(old(style).flex_row, old(style).gap, (text_size.0 as int, 0), kids, false);
            let had = has_relative(children@);
            &&& if old(style).flex_row { all.0 <= u16::MAX } else { all.1 <= u16::MAX }
            &&& all.1 + text_size.1 + (if had && text_size.1 > 0 { old(style).gap.1 as int } else { 0 }) <= u16::MAX
        }),
    ensures
        ({
            let kids = zeroed(children@, old(style).size.width is Percent, old(style).size.height is Percent);
            let all = accumulated(old(style).flex_row, old(style).gap, (text_size.0 as int, 0), kids, false);
            let had = has_relative(children@);
            let height = all.1 + text_size.1 + (if had && text_size.1 > 0 { old(style).gap.1 as int } else { 0 });
            let sized = spec_auto_sized(old(style).size, (all.0 as u16, height as u16));
            *final(style) == Style {
                size: sized.spec_clamp_computed_size(old(style).min_size, old(style).max_size),
                ..*old(style)
            }
        }),
{
    let zero_width = style.size.width.is_percent();
    let zero_height = style.size.height.is_percent();
    let mut kids: Vec<(bool, (u16, u16))> = Vec::new();
    let mut i: usize = 0;
    while i < children.len()
        invariant
            i <= children@.len(),
            kids@ == zeroed(children@.take(i as int), zero_width, zero_height),
        decreases children@.len() - i,
    {
        let (is_absolute, (w, h)) = children[i];
        kids.push((is_absolute, (if zero_width { 0 } else { w }, if zero_height { 0 } else { h })));
        i = i + 1;
        proof {
            assert(kids@ =~= zeroed(children@.take(i as int), zero_width, zero_height));
        }
    }
    proof {
        assert(children@.take(i as int) =~= children@);
    }
    let (acc, _) = accumulate_children(style.flex_row, style.gap, (text_size.0, 0), &kids);
    let had_first = has_relative_child(children);
    let height = add_text_height(acc.1, text_size.1, style.gap.1, had_first);
    let sized = apply_auto_size(style.size, (acc.0, height));
    style.size = sized.clamp_computed_size(style.min_size, style.max_size);
}

/// Whether some child is placed relatively.
fn has_relative_child(children: &Vec<(bool, (u16, u16))>) -> (r: bool)
    ensures
        r == has_relative(children@),
{
    let mut i: usize = 0;
    while i < children.len()
        invariant
            i <= children@.len(),
            forall|j: int| 0 <= j < i ==> (#[trigger] children@[j]).0,
        decreases children@.len() - i,
    {
        if !children[i].0 {
            return true;
        }
        i = i + 1;
    }
    false
}

/// Drawing order of siblings: by z-index, relative before absolute at equal z-index.
pub open spec fn z_le(a: (i16, bool), b: (i16, bool)) -> bool {
    a.0 < b.0 || (a.0 == b.0 && (!a.1 || b.1))
}

/// Number of leading indices in `order` whose key does not come after `x`.
pub open spec fn z_first_after(order: Seq<usize>, keys: Seq<(i16, bool)>, x: (i16, bool)) -> nat
    decreases order.len(),
{
    if order.len() == 0 {
        0
    } else if !z_le(keys[order[0] as int], x) {
        0
    } else {
        1 + z_first_after(order.drop_first(), keys, x)
    }
}

/// The indices of `keys[..n]` in drawing order, siblings with equal keys keeping their order.
pub open spec fn z_order(keys: Seq<(i16, bool)>, n: nat) -> Seq<usize>
    decreases n,
{
    if n == 0 {
        seq![]
    } else {
        let rest = z_order(keys, (n - 1) as nat);
        rest.insert(z_first_after(rest, keys, keys[n - 1]) as int, (n - 1) as usize)
    }
}

/// Whether key `a` is drawn no later than key `b`.
fn z_key_le(a: (i16, bool), b: (i16, bool)) -> (r: bool)
    ensures
        r == z_le(a, b),
{
    a.0 < b.0 || (a.0 == b.0 && (!a.1 || b.1))
}

/// Sort children by z-index, absolute children drawn after relative children with the same
/// z-index: returns the indices of the children (given as `(z_index, is_absolute)`) in
/// drawing order.
pub fn z_sort_children(keys: &Vec<(i16, bool)>) -> (r: Vec<usize>)
    ensures
        r@ == z_order(keys@, keys@.len()),
{
    let mut order: Vec<usize> = Vec::new();
    let mut i: usize = 0;
    while i < keys.len()
        invariant
            i <= keys@.len(),
            order@ == z_order(keys@, i as nat),
            forall|k: int| 0 <= k < order@.len() ==> (#[trigger] order@[k]) < i,
        decreases keys@.len() - i,
    {
        let x = keys[i];
        let mut p: usize = 0;
        proof {
            assert(order@.skip(0) =~= order@);
        }
        while p < order.len() && z_key_le(keys[order[p]], x)
            invariant
                p <= order@.len(),
                i < keys@.len(),
                x == keys@[i as int],
                forall|k: int| 0 <= k < order@.len() ==> (#[trigger] order@[k]) < i,
                z_first_after(order@, keys@, x) == p + z_first_after(order@.skip(p as int), keys@, x),
            decreases order@.len() - p,
        {
            proof {
                assert(order@.skip(p as int).drop_first() =~= order@.skip(p + 1));
                assert(order@.skip(p as int)[0] == order@[p as int]);
            }
            p = p + 1;
        }
        proof {
            if p < order@.len() {
                assert(order@.skip(p as int)[0] == order@[p as int]);
            }
        }
        let ghost before = order@;
        order.insert(p, i);
        proof {
            before.insert_ensures(p as int, i);
        }
        i = i + 1;
    }
    order
}

/// The first `z_first_after` indices of `order` are drawn no later than `x`, the next one (if
/// any) after it.
proof fn lemma_z_first_after(order: Seq<usize>, keys: Seq<(i16, bool)>, x: (i16, bool))
    requires
        forall|k: int| 0 <= k < order.len() ==> (#[trigger] order[k]) < keys.len(),
    ensures
        z_first_after(order, keys, x) <= order.len(),
        forall|k: int| 0 <= k < z_first_after(order, keys, x) ==> z_le(#[trigger] keys[order[k] as int], x),
        z_first_after(order, keys, x) < order.len() ==> !z_le(keys[order[z_first_after(order, keys, x) as int] as int], x),
    decreases order.len(),
{
    if order.len() > 0 && z_le(keys[order[0] as int], x) {
        let rest = order.drop_first();
        assert forall|k: int| 0 <= k < rest.len() implies (#[trigger] rest[k]) < keys.len() by {
            assert(rest[k] == order[k + 1]);
        }
        lemma_z_first_after(rest, keys, x);
        assert forall|k: int| 0 <= k < z_first_after(order, keys, x) implies z_le(#[trigger] keys[order[k] as int], x) by {
            if k > 0 {
                assert(order[k] == rest[k - 1]);
            }
        }
        if z_first_after(order, keys, x) < order.len() {
            assert(order[z_first_after(order, keys, x) as int] == rest[z_first_after(rest, keys, x) as int]);
        }
    }
}

/// Siblings are put in drawing order: `z_order` lists each of the first `n` children once,
/// and never a child drawn later before one drawn earlier (by z-index, then relative before
/// absolute).
pub proof fn lemma_z_order_sorted(keys: Seq<(i16, bool)>, n: nat)
    requires
        n <= keys.len() <= usize::MAX,
    ensures
        z_order(keys, n).len() == n,
        forall|k: int| 0 <= k < n ==> (#[trigger] z_order(keys, n)[k]) < n,
        forall|a: int, b: int| 0 <= a < b < n ==> z_order(keys, n)[a] != z_order(keys, n)[b],
        forall|a: int, b: int|
            0 <= a < b < n ==> z_le(keys[z_order(keys, n)[a] as int], keys[z_order(keys, n)[b] as int]),
    decreases n,
{
    if n > 0 {
        let m = (n - 1) as nat;
        lemma_z_order_sorted(keys, m);
        let rest = z_order(keys, m);
        let x = keys[m as int];
        assert forall|k: int| 0 <= k < rest.len() implies (#[trigger] rest[k]) < keys.len() by {}
        lemma_z_first_after(rest, keys, x);
        let p = z_first_after(rest, keys, x) as int;
        let order = rest.insert(p, m as usize);
        rest.insert_ensures(p, m as usize);
        assert(order == z_order(keys, n));
        assert forall|k: int| 0 <= k < n implies (#[trigger] order[k]) < n by {
            if k < p {
                assert(order[k] == rest[k]);
            } else if k > p {
                assert(order[k] == rest[k - 1]);
            }
        }
        assert forall|a: int, b: int| 0 <= a < b < n implies order[a] != order[b] by {
            if b < p {
                assert(order[a] == rest[a] && order[b] == rest[b]);
                assert(rest[a] != rest[b]);
            } else if a < p && b == p {
                assert(order[a] == rest[a]);
                assert(rest[a] < m);
            } else if a < p {
                assert(order[a] == rest[a] && order[b] == rest[b - 1]);
                assert(rest[a] != rest[b - 1]);
            } else if a == p {
                assert(order[b] == rest[b - 1]);
                assert(rest[b - 1] < m);
            } else {
                assert(order[a] == rest[a - 1] && order[b] == rest[b - 1]);
                assert(rest[a - 1] != rest[b - 1]);
            }
        }
        assert forall|a: int, b: int| 0 <= a < b < n implies z_le(keys[order[a] as int], keys[order[b] as int]) by {
            if b < p {
                assert(order[a] == rest[a] && order[b] == rest[b]);
                assert(z_le(keys[rest[a] as int], keys[rest[b] as int]));
            } else if a < p && b == p {
                assert(order[a] == rest[a]);
                assert(z_le(keys[rest[a] as int], x));
            } else if a < p {
                assert(order[a] == rest[a] && order[b] == rest[b - 1]);
                assert(z_le(keys[rest[a] as int], keys[rest[b - 1] as int]));
            } else if a == p {
                assert(order[b] == rest[b - 1]);
                let q = keys[rest[p] as int];
                assert(!z_le(q, x));
                assert(z_le(x, q));
                if b - 1 > p {
                    assert(z_le(q, keys[rest[b - 1] as int]));
                }
            } else {
                assert(order[a] == rest[a - 1] && order[b] == rest[b - 1]);
                assert(z_le(keys[rest[a - 1] as int], keys[rest[b - 1] as int]));
            }
        }
    }
}

} // verus!
