//! A node tree and its layout: each node's canvas, built from its text and its children's
//! canvases, and where each child is placed inside it.
use vstd::prelude::*;
use crate::canvas::{
    Canvas, border_defined, colored_rows, is_bordered, is_child_extension, is_normalized, is_padded, rows_within,
};
use crate::node::layout::{
    child_advance, free_content_size, justify_relative_children_data, spec_child_advance,
    spec_free_content_size, spec_relative_children, spec_start_offset, start_offset,
};
use crate::style::alignment::{Align, Justify, clamp_non_negative, div_i16, div_trunc};
use crate::style::node_style::Style;
use crate::style::Offset;
use crate::style::Size;
use crate::text::document::Text;
use crate::text::visual::{StyledUnit, VisualLine};

verus! {

/// A node of a layout tree: its style, how its children are justified along the flex
/// direction and aligned across it, its text, and its children in order.
pub struct LayoutNode {
    pub style: Style,
    pub justify: Justify,
    pub align: Align,
    pub text: Text,
    pub children: Vec<LayoutNode>,
}

/// The layout of a node: its canvas, the position each child's canvas was computed from, and
/// the children's layouts, in the order of the children.
pub struct Layout {
    pub canvas: Canvas,
    pub child_positions: Vec<Offset>,
    pub children: Vec<Layout>,
    /// The canvas after each step: the text, then each child, then the sizing, the padding,
    /// the foreground and the background color.
    pub stages: Ghost<Seq<Canvas>>,
}

/// A child with this offset takes no room among its siblings.
pub open spec fn takes_no_room(offset: Offset) -> bool {
    offset is Absolute || offset is AbsolutelyRelative
}

/// Where a node's canvas starts: its offset placed at the position its parent gives it.
pub open spec fn node_origin(style: Style, parent_position: Offset) -> Offset {
    parent_position.spec_add(style.offset)
}

/// How far inside its canvas a node's content starts: after the left and top padding and
/// border.
pub open spec fn content_inset(style: Style) -> (int, int) {
    (
        style.padding.left + if style.border.2 { 1int } else { 0 },
        style.padding.top + if style.border.0 { 1int } else { 0 },
    )
}

/// Where a node's content starts.
pub open spec fn content_origin(style: Style, parent_position: Offset) -> Offset {
    let origin = node_origin(style, parent_position);
    Offset::Translate(
        (origin.spec_x() + content_inset(style).0) as i16,
        (origin.spec_y() + content_inset(style).1) as i16,
    )
}

/// The rows the text puts at the top of a node's canvas: its visual lines, unless the size is
/// empty.
pub open spec fn text_rows(text: Text, size: Size) -> Seq<Seq<StyledUnit>> {
    if size.width.spec_computed_size() == 0 || size.height.spec_computed_size() == 0 {
        seq![]
    } else {
        text.visual@.map_values(|l: VisualLine| l.content@)
    }
}

/// What justification reads of each child: whether it takes no room, and its total size.
pub open spec fn children_data(node: LayoutNode) -> Seq<(bool, (u16, u16))> {
    node.children@.map_values(
        |c: LayoutNode| (takes_no_room(c.style.offset), (c.style.spec_total_width(), c.style.spec_total_height())),
    )
}

/// The number of children that take room.
pub open spec fn room_count(node: LayoutNode) -> usize {
    spec_relative_children(node.style.flex_row, children_data(node)).0 as usize
}

/// The space the children leave free in the flex direction.
pub open spec fn free_space(node: LayoutNode) -> i16 {
    spec_free_content_size(
        node.style,
        room_count(node),
        spec_relative_children(node.style.flex_row, children_data(node)).1,
    ) as i16
}

/// Where the first child starts inside the content.
pub open spec fn first_offset(node: LayoutNode) -> (int, int) {
    spec_start_offset(
        node.style,
        node.justify,
        text_rows(node.text, node.style.size).len() as i16,
        free_space(node),
        room_count(node),
    )
}

/// The size of a child's canvas: its width and its number of lines.
pub open spec fn canvas_size(l: Layout) -> (usize, usize) {
    (l.canvas.spec_width() as usize, l.canvas.buffer@.len() as usize)
}

/// The offset inside the content that child `i` starts at: the first offset, moved by the
/// advance of each child before it that takes room, whose canvas is in `children`.
pub open spec fn offset_before(node: LayoutNode, children: Seq<Layout>, i: nat) -> (int, int)
    decreases i,
{
    if i == 0 {
        first_offset(node)
    } else {
        let prev = offset_before(node, children, (i - 1) as nat);
        if takes_no_room(node.children@[i - 1].style.offset) {
            prev
        } else {
            let advance = spec_child_advance(
                node.style,
                node.justify,
                free_space(node),
                room_count(node),
                canvas_size(children[i - 1]),
            );
            if node.style.flex_row {
                (prev.0 + advance, prev.1)
            } else {
                (prev.0, prev.1 + advance)
            }
        }
    }
}

/// How far a child is moved across the flex direction to align it.
pub open spec fn align_offset(node: LayoutNode, child: Style) -> (int, int) {
    let offset = node.align.spec_alignment_offset(node.style.spec_clamped_height(), child.spec_total_height());
    if node.style.flex_row {
        (0, (offset as i16) as int)
    } else {
        ((offset as i16) as int, 0)
    }
}

/// The position child `i` is placed at: the content origin for a child placed absolutely
/// relative to its parent, else the content origin moved by the offset accumulated before it
/// and by its alignment.
pub open spec fn child_position(node: LayoutNode, parent_position: Offset, children: Seq<Layout>, i: int) -> Offset {
    let origin = content_origin(node.style, parent_position);
    let child = node.children@[i].style;
    if child.offset is AbsolutelyRelative {
        origin
    } else {
        let before = offset_before(node, children, i as nat);
        let align = align_offset(node, child);
        Offset::Translate(
            (origin.spec_x() + before.0 + align.0) as i16,
            (origin.spec_y() + before.1 + align.1) as i16,
        )
    }
}

/// Some child before child `i` takes room.
pub open spec fn room_taken_before(node: LayoutNode, i: int) -> bool {
    exists|j: int| 0 <= j < i && !takes_no_room((#[trigger] node.children@[j]).style.offset)
}

/// Child `i` changes the canvas from `stages[i]` to `stages[i + 1]`: not at all when it takes
/// no room, else by a blank copy of its canvas, with the gap when a child before it took room.
pub open spec fn child_step(node: LayoutNode, children: Seq<Layout>, stages: Seq<Canvas>, i: int) -> bool {
    if takes_no_room(node.children@[i].style.offset) {
        stages[i + 1] == stages[i]
    } else {
        is_child_extension(stages[i], children[i].canvas, node.style, room_taken_before(node, i), i == 0, stages[i + 1])
    }
}

/// How a node's canvas is composed: its text at `position`, each child in order, then the
/// style's size, padding, colors and border.
pub open spec fn composed(node: LayoutNode, position: (i16, i16), children: Seq<Layout>, stages: Seq<Canvas>, canvas: Canvas) -> bool {
    let n = node.children@.len() as int;
    let style = node.style;
    &&& stages.len() == n + 5
    &&& stages[0].position == position
    &&& stages[0].rows() == text_rows(node.text, style.size)
    &&& forall|i: int| 0 <= i < n ==> #[trigger] child_step(node, children, stages, i)
    &&& is_normalized(stages[n], style, stages[n + 1])
    &&& is_padded(stages[n + 1], style.padding, stages[n + 2])
    &&& stages[n + 3].position == position
    &&& stages[n + 3].rows() == colored_rows(stages[n + 2].rows(), style.fg, true)
    &&& stages[n + 4].position == position
    &&& stages[n + 4].rows() == colored_rows(stages[n + 3].rows(), style.bg, false)
    &&& is_bordered(stages[n + 4], style.border, canvas)
}

/// `l` is the layout of `node` placed at `parent_position`: the layout of each child placed at
/// its position, and the canvas composed from them.
pub open spec fn is_layout(node: LayoutNode, parent_position: Offset, l: Layout) -> bool
    decreases node,
{
    let n = node.children@.len();
    let origin = node_origin(node.style, parent_position);
    &&& l.children@.len() == n
    &&& l.child_positions@.len() == n
    &&& forall|i: int| 0 <= i < n ==> is_layout(#[trigger] node.children@[i], l.child_positions@[i], l.children@[i])
    &&& forall|i: int| 0 <= i < n ==> #[trigger] l.child_positions@[i] == child_position(node, parent_position, l.children@, i)
    &&& composed(node, (origin.spec_x(), origin.spec_y()), l.children@, l.stages@, l.canvas)
}

/// `v` is a 16-bit signed value.
pub open spec fn fits16(v: int) -> bool {
    i16::MIN <= v <= i16::MAX
}

/// Placing the node itself leaves 16 bits: its origin, its content inset or its content
/// origin.
pub open spec fn own_refused(style: Style, parent_position: Offset) -> bool {
    let origin = node_origin(style, parent_position);
    let inset = content_inset(style);
    ||| !(style.offset is Absolute) && !(fits16(parent_position.spec_x() + style.offset.spec_x())
        && fits16(parent_position.spec_y() + style.offset.spec_y()))
    ||| inset.0 > i16::MAX || inset.1 > i16::MAX
    ||| !(fits16(origin.spec_x() + inset.0) && fits16(origin.spec_y() + inset.1))
}

/// The children's placement cannot start, for a text `text_height` lines high: a child's
/// paddings cannot be added up, the gaps or the free space leave 16 bits, the text and its gap
/// leave 16 bits, or, for SpaceAround, the first share of the free space cannot be computed in
/// 16 bits.
pub open spec fn start_refused(node: LayoutNode, text_height: int) -> bool {
    let style = node.style;
    let count = spec_relative_children(style.flex_row, children_data(node)).0;
    let size = spec_relative_children(style.flex_row, children_data(node)).1;
    let gap_count = (if count > 0 { count - 1 } else { 0 }) as i16;
    let gap = if style.flex_row { style.gap.0 as i16 } else { style.gap.1 as i16 };
    let clamped = if style.flex_row { style.spec_clamped_width() } else { style.spec_clamped_height() };
    let base = (clamped - size) as i16;
    let product = gap_count * gap;
    let gap_row = if text_height > 0 { (style.gap.1 as i16) as int } else { 0 };
    let free = (base - product) as i16;
    let divisor = (count + 1) as i16;
    let share = clamp_non_negative(div_trunc(free as int, divisor as int));
    let main = if style.flex_row { 0 } else { text_height + gap_row };
    ||| exists|j: int| 0 <= j < node.children@.len() && !(#[trigger] node.children@[j]).style.padding_fits()
    ||| !fits16(product) || !fits16(base - product)
    ||| !fits16(text_height + gap_row)
    ||| node.justify is SpaceAround && (count == usize::MAX || divisor == 0 || (free == i16::MIN && divisor == -1)
        || main + share > i16::MAX)
}

/// The offset after a child of canvas size `size` cannot be computed in 16 bits, from
/// `extra`, with `count` children taking room and `free` free space.
pub open spec fn advance_refused(node: LayoutNode, count: usize, free: i16, extra: (int, int), size: (usize, usize)) -> bool {
    let style = node.style;
    let step = if style.flex_row {
        (size.0 as i16) + (style.gap.0 as i16)
    } else {
        (size.1 as i16) + (style.gap.1 as i16)
    };
    let spaced = node.justify is SpaceBetween || node.justify is SpaceAround || node.justify is SpaceEvenly;
    let divisor = ((count as int + if node.justify is SpaceAround { 1int } else { -1int }) as i16) as int;
    let share = clamp_non_negative(div_trunc(free as int, divisor));
    let advance = spec_child_advance(style, node.justify, free, count, size);
    ||| !fits16(step)
    ||| spaced && (count >= isize::MAX || divisor == 0 || (free == i16::MIN && divisor == -1) || step + share > i16::MAX)
    ||| style.flex_row && !fits16(extra.0 + advance)
    ||| !style.flex_row && !fits16(extra.1 + advance)
}

/// A child `k` that takes room, with canvas `child`, cannot be added to `canvas`: a line of
/// the child is too wide to count, the next offset cannot be computed, the child's lines and
/// the gap cannot be counted, or in a row layout a child after the first covers lines the
/// canvas does not have.
pub open spec fn room_refused(node: LayoutNode, child: Canvas, canvas: Canvas, extra: (int, int), k: int) -> bool {
    let style = node.style;
    let mh = style.size.height.spec_computed_size() as nat;
    let rows = child.buffer@.len();
    let covered = if rows < mh { rows } else { mh };
    ||| !rows_within(child.rows(), usize::MAX as nat)
    ||| advance_refused(node, room_count(node), free_space(node), extra, (child.spec_width() as usize, rows as usize))
    ||| rows + style.gap.1 > usize::MAX
    ||| style.size.width.spec_computed_size() != 0 && style.flex_row && k != 0 && covered > canvas.buffer@.len()
}

/// The finishing steps stop on `canvas` after the steps in `steps` were done: a line too wide
/// before sizing, or after sizing, padding or a color, or a border that cannot be drawn.
pub open spec fn finish_refused_at(canvas: Canvas, style: Style, steps: Seq<Canvas>) -> bool {
    ||| steps.len() == 0 && !rows_within(canvas.rows(), isize::MAX as nat)
    ||| steps.len() == 1 && is_normalized(canvas, style, steps[0]) && !rows_within(steps[0].rows(), usize::MAX as nat)
    ||| steps.len() == 2 && is_normalized(canvas, style, steps[0]) && is_padded(steps[0], style.padding, steps[1])
        && !rows_within(steps[1].rows(), usize::MAX as nat)
    ||| steps.len() == 3 && is_normalized(canvas, style, steps[0]) && is_padded(steps[0], style.padding, steps[1])
        && steps[2].rows() == colored_rows(steps[1].rows(), style.fg, true) && !rows_within(
        steps[2].rows(),
        usize::MAX as nat,
    )
    ||| steps.len() == 4 && is_normalized(canvas, style, steps[0]) && is_padded(steps[0], style.padding, steps[1])
        && steps[2].rows() == colored_rows(steps[1].rows(), style.fg, true) && steps[3].rows() == colored_rows(
        steps[2].rows(),
        style.bg,
        false,
    ) && ((steps[3].buffer@.len() > 0 && !steps[3].buffer@[0].fits()) || !border_defined(steps[3].rows(), style.border))
}

/// The first `k` children were laid out as [`is_layout`] says, their layouts in `children`,
/// and the canvas went through `stages`.
pub open spec fn prefix_run(node: LayoutNode, parent_position: Offset, children: Seq<Layout>, stages: Seq<Canvas>, k: int) -> bool {
    let origin = node_origin(node.style, parent_position);
    &&& 0 <= k <= node.children@.len()
    &&& stages.len() == k + 1
    &&& children.len() >= k
    &&& stages[0].position == (origin.spec_x(), origin.spec_y())
    &&& stages[0].rows() == text_rows(node.text, node.style.size)
    &&& forall|j: int|
        0 <= j < k ==> #[trigger] is_layout(node.children@[j], child_position(node, parent_position, children, j), children[j])
    &&& forall|j: int| 0 <= j < k ==> #[trigger] child_step(node, children, stages, j)
}

/// The children before child `k` were laid out, `k` being the last index of `stages`, and
/// child `k` is next.
pub open spec fn before_child(node: LayoutNode, parent_position: Offset, children: Seq<Layout>, stages: Seq<Canvas>) -> bool {
    let k = stages.len() - 1;
    &&& prefix_run(node, parent_position, children, stages, k)
    &&& k < node.children@.len()
    &&& children.len() == k
}

/// Child `k` stops the layout after the children before it were laid out: its position leaves
/// 16 bits, or it was laid out, takes room and cannot be added.
pub open spec fn child_refused(node: LayoutNode, parent_position: Offset, children: Seq<Layout>, stages: Seq<Canvas>) -> bool {
    let k = stages.len() - 1;
    ||| before_child(node, parent_position, children, stages) && position_refused(node, parent_position, children, k)
    ||| {
        &&& prefix_run(node, parent_position, children, stages, k)
        &&& k < node.children@.len()
        &&& children.len() == k + 1
        &&& is_layout(node.children@[k], child_position(node, parent_position, children, k), children[k])
        &&& !takes_no_room(node.children@[k].style.offset)
        &&& room_refused(node, children[k].canvas, stages[k], offset_before(node, children, k as nat), k)
    }
}

/// The position of child `k` leaves 16 bits.
pub open spec fn position_refused(node: LayoutNode, parent_position: Offset, children: Seq<Layout>, k: int) -> bool {
    let child = node.children@[k].style;
    let origin = content_origin(node.style, parent_position);
    let before = offset_before(node, children, k as nat);
    let align = align_offset(node, child);
    !(child.offset is AbsolutelyRelative) && !(fits16(origin.spec_x() + before.0) && fits16(origin.spec_y() + before.1)
        && fits16(origin.spec_x() + before.0 + align.0) && fits16(origin.spec_y() + before.1 + align.1))
}

/// The layout of `node` placed at `parent_position` stops at one of the checks it makes: its
/// own placement, the height of its text, the start of the children's placement, a child, or
/// the finishing steps.
#[verifier::opaque]
pub open spec fn refused(node: LayoutNode, parent_position: Offset) -> bool
    decreases node,
{
    let text_height = text_rows(node.text, node.style.size).len() as int;
    ||| own_refused(node.style, parent_position)
    ||| text_height > i16::MAX
    ||| start_refused(node, text_height)
    ||| exists|children: Seq<Layout>, stages: Seq<Canvas>| #[trigger] child_refused(node, parent_position, children, stages)
    ||| exists|children: Seq<Layout>, stages: Seq<Canvas>|
        #[trigger] before_child(node, parent_position, children, stages) && refused(
            node.children@[stages.len() - 1],
            child_position(node, parent_position, children, stages.len() - 1),
        )
    ||| exists|children: Seq<Layout>, stages: Seq<Canvas>, steps: Seq<Canvas>|
        #[trigger] finish_refused(node, parent_position, children, stages, steps)
}

/// The finishing steps stop after all the children were laid out.
pub open spec fn finish_refused(node: LayoutNode, parent_position: Offset, children: Seq<Layout>, stages: Seq<Canvas>, steps: Seq<Canvas>) -> bool {
    let n = node.children@.len() as int;
    &&& prefix_run(node, parent_position, children, stages, n)
    &&& children.len() == n
    &&& finish_refused_at(stages[n], node.style, steps)
}

/// `a + b` stays within 16 bits.
fn sum_fits(a: i16, b: i16) -> (r: bool)
    ensures
        r == (i16::MIN <= a + b <= i16::MAX),
{
    let s = a as i32 + b as i32;
    -32768 <= s && s <= 32767
}

/// [`offset_before`] reads only the layouts of the children before `i`.
proof fn lemma_offset_before_prefix(node: LayoutNode, a: Seq<Layout>, b: Seq<Layout>, i: nat)
    requires
        forall|k: int| 0 <= k < i ==> a[k] == b[k],
    ensures
        offset_before(node, a, i) == offset_before(node, b, i),
    decreases i,
{
    if i > 0 {
        lemma_offset_before_prefix(node, a, b, (i - 1) as nat);
    }
}

/// What the children's placement starts from: the number of children taking room, the free
/// space and the offset of the first child, for a text `text_height` lines high. `None` when
/// one of them leaves 16 bits or a division by zero would be asked for.
fn placement_start(node: &LayoutNode, text_height: i16) -> (r: Option<(usize, i16, (i16, i16))>)
    requires
        text_height == text_rows(node.text, node.style.size).len(),
    ensures
        r matches Some((count, free, start)) ==> {
            &&& count == room_count(*node)
            &&& free == free_space(*node)
            &&& start.0 == first_offset(*node).0
            &&& start.1 == first_offset(*node).1
            &&& forall|j: int| 0 <= j < node.children@.len() ==> (#[trigger] node.children@[j]).style.padding_fits()
        },
        r is None ==> start_refused(*node, text_height as int),
{
    let style = &node.style;
    let n = node.children.len();
    let mut data: Vec<(bool, (u16, u16))> = Vec::new();
    let mut i: usize = 0;
    while i < n
        invariant
            i <= n,
            n == node.children@.len(),
            data@ == children_data(*node).take(i as int),
            forall|j: int| 0 <= j < i ==> (#[trigger] node.children@[j]).style.padding_fits(),
        decreases n - i,
    {
        let c = &node.children[i].style;
        if c.padding.left as u32 + c.padding.right as u32 > 65535 || c.padding.top as u32 + c.padding.bottom as u32 > 65535 {
            proof {
                assert(!node.children@[i as int].style.padding_fits());
            }
            return None;
        }
        data.push((c.offset.is_absolute(), (c.total_width(), c.total_height())));
        proof {
            assert(data@ =~= children_data(*node).take(i + 1));
        }
        i = i + 1;
    }
    proof {
        assert(data@ =~= children_data(*node));
    }
    let (count, children_size) = justify_relative_children_data(style.flex_row, &data);
    let gap_count: i16 = (if count > 0 { count - 1 } else { 0 }) as i16;
    let gap: i16 = if style.flex_row { style.gap.0 as i16 } else { style.gap.1 as i16 };
    let clamped: u16 = if style.flex_row { style.clamped_width() } else { style.clamped_height() };
    let base: i16 = (clamped as i32 - children_size as i32) as i16;
    proof {
        assert(-1073741824 <= gap_count * gap <= 1073741824) by (nonlinear_arith)
            requires
                -32768 <= gap_count <= 32767,
                -32768 <= gap <= 32767,
        ;
    }
    let product: i32 = gap_count as i32 * gap as i32;
    if product < -32768 || product > 32767 || base as i32 - product < -32768 || base as i32 - product > 32767 {
        return None;
    }
    let free = free_content_size(style, count, children_size);
    let gap_row: i32 = if text_height > 0 { (style.gap.1 as i16) as i32 } else { 0 };
    if text_height as i32 + gap_row > 32767 || text_height as i32 + gap_row < -32768 {
        return None;
    }
    if node.justify.is_space_around() {
        if count == usize::MAX {
            return None;
        }
        let divisor = (count + 1) as i16;
        if divisor == 0 || (free == i16::MIN && divisor == -1) {
            return None;
        }
        let q = div_i16(free, divisor);
        let share: i32 = if q < 0 { 0 } else { q as i32 };
        let main: i32 = if style.flex_row { 0 } else { text_height as i32 + gap_row };
        if main + share > 32767 {
            return None;
        }
    }
    let start = start_offset(style, node.justify, text_height, free, count);
    Some((count, free, start))
}

/// The offset after a child that takes room and whose canvas is `size`: `extra` moved by the
/// child's advance in the flex direction. `None` when that leaves 16 bits or a division by
/// zero would be asked for.
fn advanced(node: &LayoutNode, count: usize, free: i16, extra: (i16, i16), size: (usize, usize)) -> (r: Option<(i16, i16)>)
    ensures
        r matches Some(next) ==> {
            let advance = spec_child_advance(node.style, node.justify, free, count, size);
            if node.style.flex_row {
                next.0 == extra.0 + advance && next.1 == extra.1
            } else {
                next.0 == extra.0 && next.1 == extra.1 + advance
            }
        },
        r is None ==> advance_refused(*node, count, free, (extra.0 as int, extra.1 as int), size),
{
    let style = &node.style;
    let step: i32 = if style.flex_row {
        (size.0 as i16) as i32 + (style.gap.0 as i16) as i32
    } else {
        (size.1 as i16) as i32 + (style.gap.1 as i16) as i32
    };
    if step > 32767 || step < -32768 {
        return None;
    }
    if node.justify.is_spaced() {
        if count >= isize::MAX as usize {
            return None;
        }
        let adjust: isize = if node.justify.is_space_around() { 1 } else { -1 };
        let divisor = (count as isize + adjust) as i16;
        if divisor == 0 || (free == i16::MIN && divisor == -1) {
            return None;
        }
        let q = div_i16(free, divisor);
        let share: i32 = if q < 0 { 0 } else { q as i32 };
        if step + share > 32767 {
            return None;
        }
    }
    let advance = child_advance(style, node.justify, free, count, size);
    if style.flex_row {
        if !sum_fits(extra.0, advance) {
            return None;
        }
        Some((extra.0 + advance, extra.1))
    } else {
        if !sum_fits(extra.1, advance) {
            return None;
        }
        Some((extra.0, extra.1 + advance))
    }
}

/// The canvas after the children: sized, padded, colored and bordered by the style, with the
/// canvas after each of the first four steps. `None` when a line is too wide to be counted or
/// a colored right border has no line end to put its corner before.
fn finished(canvas: Canvas, style: &Style) -> (r: Option<(Canvas, Ghost<Seq<Canvas>>)>)
    ensures
        r matches Some((done, steps)) ==> {
            &&& steps@.len() == 4
            &&& is_normalized(canvas, *style, steps@[0])
            &&& is_padded(steps@[0], style.padding, steps@[1])
            &&& steps@[2].position == canvas.position
            &&& steps@[2].rows() == colored_rows(steps@[1].rows(), style.fg, true)
            &&& steps@[3].position == canvas.position
            &&& steps@[3].rows() == colored_rows(steps@[2].rows(), style.bg, false)
            &&& is_bordered(steps@[3], style.border, done)
        },
        r is None ==> exists|steps: Seq<Canvas>| #[trigger] finish_refused_at(canvas, *style, steps),
{
    let ghost start = canvas;
    let mut canvas = canvas;
    if !canvas.rows_within_exec(isize::MAX as usize) {
        proof {
            assert(finish_refused_at(start, *style, Seq::<Canvas>::empty()));
        }
        return None;
    }
    canvas.normalize(style);
    let ghost sized = canvas;
    if !canvas.rows_within_exec(usize::MAX) {
        proof {
            assert(finish_refused_at(start, *style, seq![sized]));
        }
        return None;
    }
    canvas.add_padding(style.padding);
    let ghost padded = canvas;
    if !canvas.rows_within_exec(usize::MAX) {
        proof {
            assert(finish_refused_at(start, *style, seq![sized, padded]));
        }
        return None;
    }
    canvas.add_fg(style.fg);
    let ghost with_fg = canvas;
    if !canvas.rows_within_exec(usize::MAX) {
        proof {
            assert(finish_refused_at(start, *style, seq![sized, padded, with_fg]));
        }
        return None;
    }
    canvas.add_bg(style.bg);
    let ghost with_bg = canvas;
    if canvas.buffer.len() > 0 {
        if canvas.buffer[0].checked_width().is_none() {
            proof {
                assert(finish_refused_at(start, *style, seq![sized, padded, with_fg, with_bg]));
            }
            return None;
        }
    }
    if !canvas.border_drawable(style.border) {
        proof {
            assert(finish_refused_at(start, *style, seq![sized, padded, with_fg, with_bg]));
        }
        return None;
    }
    canvas.add_border(style.border);
    let ghost four = seq![sized, padded, with_fg, with_bg];
    let steps: Ghost<Seq<Canvas>> = Ghost(four);
    Some((canvas, steps))
}

/// A prefix run stays one with one more layout after it.
proof fn lemma_prefix_run_extend(node: LayoutNode, parent_position: Offset, done: Seq<Layout>, stages: Seq<Canvas>, i: int, next: Layout)
    requires
        prefix_run(node, parent_position, done, stages, i),
        done.len() == i,
    ensures
        prefix_run(node, parent_position, done.push(next), stages, i),
        forall|j: int| 0 <= j <= i ==> #[trigger] child_position(node, parent_position, done.push(next), j) == child_position(
            node,
            parent_position,
            done,
            j,
        ),
        offset_before(node, done.push(next), i as nat) == offset_before(node, done, i as nat),
{
    let ls = done.push(next);
    assert forall|j: int| 0 <= j <= i implies #[trigger] child_position(node, parent_position, ls, j) == child_position(
        node,
        parent_position,
        done,
        j,
    ) by {
        assert forall|k: int| 0 <= k < j implies ls[k] == done[k] by {}
        lemma_offset_before_prefix(node, done, ls, j as nat);
    }
    assert forall|k: int| 0 <= k < i implies ls[k] == done[k] by {}
    lemma_offset_before_prefix(node, done, ls, i as nat);
    assert forall|j: int| 0 <= j < i implies is_layout(#[trigger] node.children@[j], child_position(node, parent_position, ls, j), ls[j]) by {
        assert(child_position(node, parent_position, ls, j) == child_position(node, parent_position, done, j));
    }
    assert forall|j: int| 0 <= j < i implies #[trigger] child_step(node, ls, stages, j) by {
        assert(child_step(node, done, stages, j));
        assert(ls[j] == done[j]);
    }
}

/// A prefix run grows by a child laid out at its position and the canvas after it.
proof fn lemma_prefix_run_step(
    node: LayoutNode,
    parent_position: Offset,
    done: Seq<Layout>,
    stages: Seq<Canvas>,
    i: int,
    next: Layout,
    canvas: Canvas,
)
    requires
        prefix_run(node, parent_position, done, stages, i),
        done.len() == i,
        i < node.children@.len(),
        is_layout(node.children@[i], child_position(node, parent_position, done, i), next),
        child_step(node, done.push(next), stages.push(canvas), i),
    ensures
        prefix_run(node, parent_position, done.push(next), stages.push(canvas), i + 1),
        forall|j: int| 0 <= j <= i ==> #[trigger] child_position(node, parent_position, done.push(next), j) == child_position(
            node,
            parent_position,
            done,
            j,
        ),
{
    lemma_prefix_run_extend(node, parent_position, done, stages, i, next);
    let ls = done.push(next);
    let st = stages.push(canvas);
    assert forall|j: int| 0 <= j < i + 1 implies #[trigger] child_step(node, ls, st, j) by {
        if j < i {
            assert(child_step(node, ls, stages, j));
            assert(st[j] == stages[j]);
            assert(st[j + 1] == stages[j + 1]);
        }
    }
    assert forall|j: int| 0 <= j < i + 1 implies is_layout(#[trigger] node.children@[j], child_position(node, parent_position, ls, j), ls[j]) by {
        if j == i {
            assert(child_position(node, parent_position, ls, i) == child_position(node, parent_position, done, i));
        }
    }
    assert(st[0] == stages[0]);
}

/// Lays out child `i` at its position and adds it to `canvas` when it takes room, after the
/// children before it were laid out in `done`, the canvas having gone through `stages`.
/// Returns the child's position, its layout and the offset after it.
fn place_child(
    node: &LayoutNode,
    parent_position: Offset,
    content: Offset,
    count: usize,
    free: i16,
    i: usize,
    extra: (i16, i16),
    include_gap: bool,
    canvas: &mut Canvas,
    done: Ghost<Seq<Layout>>,
    stages: Ghost<Seq<Canvas>>,
) -> (r: Option<(Offset, Layout, (i16, i16))>)
    requires
        i < node.children@.len(),
        count == room_count(*node),
        free == free_space(*node),
        content == content_origin(node.style, parent_position),
        forall|j: int| 0 <= j < node.children@.len() ==> (#[trigger] node.children@[j]).style.padding_fits(),
        done@.len() == i,
        prefix_run(*node, parent_position, done@, stages@, i as int),
        stages@[i as int] == *old(canvas),
        extra.0 == offset_before(*node, done@, i as nat).0,
        extra.1 == offset_before(*node, done@, i as nat).1,
        include_gap == room_taken_before(*node, i as int),
    ensures
        final(canvas).position == old(canvas).position,
        match r {
            Some((position, layout, next)) => {
                &&& position == child_position(*node, parent_position, done@, i as int)
                &&& is_layout(node.children@[i as int], position, layout)
                &&& child_step(*node, done@.push(layout), stages@.push(*final(canvas)), i as int)
                &&& next.0 == offset_before(*node, done@.push(layout), (i + 1) as nat).0
                &&& next.1 == offset_before(*node, done@.push(layout), (i + 1) as nat).1
            },
            None => (exists|ls: Seq<Layout>| #[trigger] child_refused(*node, parent_position, ls, stages@)) || refused(
                node.children@[i as int],
                child_position(*node, parent_position, done@, i as int),
            ),
        },
    decreases node, 0int,
{
    let style = &node.style;
    let child = &node.children[i];
    let align = node.align.get_child_extra_offset(style, &child.style);
    let position = if child.style.offset.is_absolutely_relative() {
        content
    } else {
        if !sum_fits(content.x(), extra.0) || !sum_fits(content.y(), extra.1) {
            proof {
                assert(position_refused(*node, parent_position, done@, i as int));
                assert(child_refused(*node, parent_position, done@, stages@));
            }
            return None;
        }
        let moved = content.add_tuple(extra);
        if !sum_fits(moved.x(), align.0) || !sum_fits(moved.y(), align.1) {
            proof {
                assert(position_refused(*node, parent_position, done@, i as int));
                assert(child_refused(*node, parent_position, done@, stages@));
            }
            return None;
        }
        moved.add_tuple(align)
    };
    proof {
        assert(position == child_position(*node, parent_position, done@, i as int));
    }
    let child_layout = match layout_canvas(child, position) {
        Some(l) => l,
        None => {
            return None;
        },
    };
    let ghost ls = done@.push(child_layout);
    proof {
        lemma_prefix_run_extend(*node, parent_position, done@, stages@, i as int, child_layout);
    }
    let mut next = extra;
    if !child.style.offset.is_absolute() {
        if !child_layout.canvas.rows_within_exec(usize::MAX) {
            proof {
                assert(room_refused(*node, child_layout.canvas, stages@[i as int], offset_before(*node, ls, i as nat), i as int));
                assert(child_refused(*node, parent_position, ls, stages@));
            }
            return None;
        }
        let size = (child_layout.canvas.width(), child_layout.canvas.height());
        next = match advanced(node, count, free, extra, size) {
            Some(e) => e,
            None => {
                proof {
                    assert(room_refused(*node, child_layout.canvas, stages@[i as int], offset_before(*node, ls, i as nat), i as int));
                    assert(child_refused(*node, parent_position, ls, stages@));
                }
                return None;
            },
        };
        if child_layout.canvas.buffer.len() > usize::MAX - style.gap.1 as usize {
            proof {
                assert(room_refused(*node, child_layout.canvas, stages@[i as int], offset_before(*node, ls, i as nat), i as int));
                assert(child_refused(*node, parent_position, ls, stages@));
            }
            return None;
        }
        let sw = style.size.width.computed_size();
        if sw != 0 && style.flex_row && i != 0 {
            let mh = style.size.height.computed_size() as usize;
            let rows = child_layout.canvas.buffer.len();
            let covered = if rows < mh { rows } else { mh };
            if covered > canvas.buffer.len() {
                proof {
                    assert(room_refused(*node, child_layout.canvas, stages@[i as int], offset_before(*node, ls, i as nat), i as int));
                    assert(child_refused(*node, parent_position, ls, stages@));
                }
                return None;
            }
        }
        canvas.extend_child(&child_layout.canvas, style, include_gap, i == 0);
    }
    proof {
        assert(ls[i as int] == child_layout);
        assert(stages@.push(*canvas)[i as int] == *old(canvas));
        assert(child_step(*node, ls, stages@.push(*canvas), i as int));
    }
    Some((position, child_layout, next))
}

/// Computes the layout of `node` placed at `parent_position`: the children's canvases are
/// computed in order, each at its position, and the node's canvas is composed from its text
/// and the canvases of the children that take room. Returns `None` only where one of the
/// checks of [`refused`] stops the computation: a position or a size leaves the range the
/// layout counts in (16-bit coordinates and offsets, lines whose width a `usize` counts), a
/// child in a row layout covers lines the canvas does not have, or a colored right border has
/// no line end to put its corner before.
pub fn layout_canvas(node: &LayoutNode, parent_position: Offset) -> (r: Option<Layout>)
    ensures
        r matches Some(l) ==> is_layout(*node, parent_position, l),
        r is None ==> refused(*node, parent_position),
    decreases node, 1int,
{
    let style = &node.style;
    let fits = match style.offset {
        Offset::Absolute(..) => true,
        _ => sum_fits(parent_position.x(), style.offset.x()) && sum_fits(parent_position.y(), style.offset.y()),
    };
    if !fits {
        proof {
            reveal(refused);
        }
        return None;
    }
    let origin = parent_position.add(style.offset);
    let inset_x: u32 = style.padding.left as u32 + if style.border.2 { 1 } else { 0 };
    let inset_y: u32 = style.padding.top as u32 + if style.border.0 { 1 } else { 0 };
    if inset_x > 32767 || inset_y > 32767 {
        proof {
            reveal(refused);
        }
        return None;
    }
    let inset = (inset_x as i16, inset_y as i16);
    if !sum_fits(origin.x(), inset.0) || !sum_fits(origin.y(), inset.1) {
        proof {
            reveal(refused);
        }
        return None;
    }
    let content = origin.add_tuple(inset);
    let mut canvas = Canvas { position: origin.tuple(), buffer: Vec::new() };
    canvas.add_text(&node.text, style.size);
    proof {
        assert(canvas.rows() =~= text_rows(node.text, style.size));
    }
    let text_lines = canvas.height();
    if text_lines > 32767 {
        proof {
            reveal(refused);
        }
        return None;
    }
    let (count, free, start) = match placement_start(node, text_lines as i16) {
        Some(p) => p,
        None => {
            proof {
                reveal(refused);
            }
            return None;
        },
    };
    let n = node.children.len();
    let mut extra = start;
    let mut include_gap = false;
    let mut positions: Vec<Offset> = Vec::new();
    let mut layouts: Vec<Layout> = Vec::new();
    let ghost mut stages: Seq<Canvas> = seq![canvas];
    let ghost top = (origin.spec_x(), origin.spec_y());
    let mut i: usize = 0;
    while i < n
        invariant
            i <= n,
            n == node.children@.len(),
            *style == node.style,
            count == room_count(*node),
            free == free_space(*node),
            content == content_origin(node.style, parent_position),
            forall|j: int| 0 <= j < n ==> (#[trigger] node.children@[j]).style.padding_fits(),
            positions@.len() == i,
            layouts@.len() == i,
            prefix_run(*node, parent_position, layouts@, stages, i as int),
            stages[i as int] == canvas,
            canvas.position == top,
            extra.0 == offset_before(*node, layouts@, i as nat).0,
            extra.1 == offset_before(*node, layouts@, i as nat).1,
            include_gap == room_taken_before(*node, i as int),
            forall|j: int| 0 <= j < i ==> #[trigger] positions@[j] == child_position(*node, parent_position, layouts@, j),
        decreases n - i,
    {
        let placed = place_child(
            node,
            parent_position,
            content,
            count,
            free,
            i,
            extra,
            include_gap,
            &mut canvas,
            Ghost(layouts@),
            Ghost(stages),
        );
        let (position, child_layout, next) = match placed {
            Some(p) => p,
            None => {
                proof {
                    assert(refused(*node, parent_position)) by {
                        reveal(refused);
                        if exists|ls: Seq<Layout>| #[trigger] child_refused(*node, parent_position, ls, stages) {
                            let ls = choose|ls: Seq<Layout>| #[trigger] child_refused(*node, parent_position, ls, stages);
                            assert(child_refused(*node, parent_position, ls, stages));
                        } else {
                            assert(before_child(*node, parent_position, layouts@, stages));
                        }
                    }
                }
                return None;
            },
        };
        let ghost old_layouts = layouts@;
        let ghost old_positions = positions@;
        proof {
            lemma_prefix_run_step(*node, parent_position, old_layouts, stages, i as int, child_layout, canvas);
        }
        positions.push(position);
        layouts.push(child_layout);
        extra = next;
        proof {
            stages = stages.push(canvas);
            assert(layouts@ == old_layouts.push(child_layout));
            assert forall|j: int| 0 <= j < i + 1 implies #[trigger] positions@[j] == child_position(*node, parent_position, layouts@, j) by {
                if j < i {
                    assert(positions@[j] == old_positions[j]);
                    assert(old_positions[j] == child_position(*node, parent_position, old_layouts, j));
                }
            }
        }
        if !node.children[i].style.offset.is_absolute() {
            include_gap = true;
            proof {
                assert(room_taken_before(*node, i + 1)) by {
                    assert(!takes_no_room(node.children@[i as int].style.offset));
                }
            }
        } else {
            proof {
                assert(room_taken_before(*node, i + 1) == room_taken_before(*node, i as int)) by {
                    if room_taken_before(*node, i + 1) {
                        let j = choose|j: int| 0 <= j < i + 1 && !takes_no_room((#[trigger] node.children@[j]).style.offset);
                        assert(j < i);
                    }
                }
            }
        }
        i = i + 1;
    }
    let (done, steps) = match finished(canvas, style) {
        Some(f) => f,
        None => {
            proof {
                reveal(refused);
                let st = choose|st: Seq<Canvas>| #[trigger] finish_refused_at(canvas, *style, st);
                assert(finish_refused(*node, parent_position, layouts@, stages, st));
            }
            return None;
        },
    };
    let ghost all = stages + steps@;
    let all_stages: Ghost<Seq<Canvas>> = Ghost(all);
    let layout = Layout { canvas: done, child_positions: positions, children: layouts, stages: all_stages };
    proof {
        let nn = n as int;
        assert(all[nn] == stages[nn]);
        assert forall|j: int| 0 <= j < nn implies #[trigger] child_step(*node, layout.children@, all, j) by {
            assert(child_step(*node, layouts@, stages, j));
            assert(all[j] == stages[j]);
            assert(all[j + 1] == stages[j + 1]);
        }
        assert forall|j: int| 0 <= j < nn implies is_layout(#[trigger] node.children@[j], layout.child_positions@[j], layout.children@[j]) by {
            assert(is_layout(node.children@[j], child_position(*node, parent_position, layouts@, j), layouts@[j]));
        }
        assert(all[nn + 1] == steps@[0]);
        assert(all[nn + 2] == steps@[1]);
        assert(all[nn + 3] == steps@[2]);
        assert(all[nn + 4] == steps@[3]);
        assert(composed(*node, top, layout.children@, all, layout.canvas));
    }
    Some(layout)
}

} // verus!
