use termnode::app::recompute::needs_parent_recompute;
use termnode::app::Viewport;
use termnode::node::layout::{
    accumulate_child_size, accumulate_children, add_text_height, apply_auto_size, auto_intrinsic_size,
    available_content_size, percentage_auto_size, child_advance, focus_cursor_position,
    free_content_size, justify_relative_children_data, node_viewports, relative_position,
    start_offset, z_sort_children,
};
use termnode::node::tree::{layout_canvas, LayoutNode};
use termnode::node::NodeId;
use termnode::style::{Align, Justify, Offset, Padding, Size, SizeValue, Style};
use termnode::text::{Text, TextWrap};

fn column(height: u16, gap_row: u16) -> Style {
    let mut style = Style::default();
    style.size = Size::from_cells(20, height);
    style.max_size = Size::from_cells(100, 100);
    style.gap = (0, gap_row);
    style
}

#[test]
fn cursor_position_starts_inside_border_and_padding() {
    let mut style = Style::default();
    style.border = (true, false, true, false, None);
    style.padding = Padding::separate(0, 0, 0, 1);
    assert_eq!(focus_cursor_position((2, 3), &style, Some((4, 1))), (8, 5));
    assert_eq!(focus_cursor_position((2, 3), &style, None), (4, 4));
    assert_eq!(focus_cursor_position((-10, -10), &style, None), (0, 0));
}

#[test]
fn relative_position_is_clamped_at_zero() {
    assert_eq!(relative_position((5, 5), 7, 3), (2, 0));
    assert_eq!(relative_position((-2, 0), 1, 1), (3, 1));
}

#[test]
fn available_content_size_takes_the_gaps_off() {
    let mut style = Style::default();
    style.flex_row = true;
    style.gap = (2, 0);
    style.size = Size::from_cells(10, 4);
    assert_eq!(available_content_size(&style, 3), Size::from_cells(6, 4));
    assert_eq!(available_content_size(&style, 1), Size::from_cells(10, 4));
    style.size = Size::from_cells(3, 4);
    assert_eq!(available_content_size(&style, 4), Size::from_cells(0, 4));
}

#[test]
fn relative_children_data_skips_absolute_children() {
    let children = vec![(false, (3, 4)), (true, (9, 9)), (false, (1, 2))];
    assert_eq!(justify_relative_children_data(false, &children), (2, 6));
    assert_eq!(justify_relative_children_data(true, &children), (2, 4));
    assert_eq!(justify_relative_children_data(true, &vec![(false, (u16::MAX, 0)), (false, (5, 0))]), (2, u16::MAX));
}

#[test]
fn free_content_size_and_justification() {
    let style = column(10, 1);
    let free = free_content_size(&style, 3, 4);
    assert_eq!(free, 4);
    assert_eq!(free_content_size(&column(3, 1), 3, 4), -3);
    assert_eq!(start_offset(&style, Justify::Start, 2, free, 3), (0, 3));
    assert_eq!(start_offset(&style, Justify::End, 2, free, 3), (0, 4));
    assert_eq!(start_offset(&style, Justify::Center, 2, free, 3), (0, 2));
    assert_eq!(start_offset(&style, Justify::SpaceAround, 2, free, 3), (0, 4));
    assert_eq!(start_offset(&style, Justify::Start, 0, free, 3), (0, 0));
    assert_eq!(child_advance(&style, Justify::Start, free, 3, (5, 2)), 3);
    assert_eq!(child_advance(&style, Justify::SpaceBetween, free, 3, (5, 2)), 5);
    assert_eq!(child_advance(&style, Justify::SpaceAround, free, 3, (5, 2)), 4);
    assert_eq!(child_advance(&style, Justify::SpaceEvenly, -4, 3, (5, 2)), 3);
}

#[test]
fn accumulating_child_sizes() {
    assert_eq!(accumulate_child_size(true, (1, 2), false, (0, 0), (3, 4)), (3, 4));
    assert_eq!(accumulate_child_size(true, (1, 2), true, (3, 4), (2, 7)), (6, 7));
    assert_eq!(accumulate_child_size(false, (1, 2), true, (3, 4), (2, 7)), (3, 13));
}

#[test]
fn z_sort_orders_by_z_index_then_absolute_last() {
    let keys = vec![(1, false), (0, true), (0, false), (1, false), (-1, true)];
    assert_eq!(z_sort_children(&keys), vec![4, 2, 1, 0, 3]);
    assert_eq!(z_sort_children(&vec![]), Vec::<usize>::new());
}

#[test]
fn node_viewports_of_a_bordered_node() {
    let mut style = Style::default();
    style.size = Size::from_cells(6, 3);
    style.max_size = Size::from_cells(100, 100);
    style.border = (true, true, true, true, None);
    let parent = Viewport::new(80, 24);
    let (own, child) = node_viewports(parent, (2, 1), &style, false);
    assert_eq!(own, Viewport { min: (2, 1), max: (10, 6), screen: (80, 24) });
    assert_eq!(child, Viewport { min: (3, 2), max: (9, 5), screen: (80, 24) });
    // a relative node never starts before its parent's viewport
    let parent = Viewport { min: (5, 5), max: (80, 24), screen: (80, 24) };
    let (own, _) = node_viewports(parent, (2, 1), &style, false);
    assert_eq!(own.min, (5, 5));
    // an absolute node is clipped by the screen only
    let parent = Viewport { min: (5, 5), max: (6, 6), screen: (80, 24) };
    let (own, _) = node_viewports(parent, (2, 1), &style, true);
    assert_eq!(own, Viewport { min: (2, 1), max: (10, 6), screen: (80, 24) });
}

#[test]
fn recompute_climbs_to_the_parent_when_the_size_may_change() {
    let mut cached = Style::default();
    cached.size = Size::from_cells(4, 4);
    let mut style = cached.clone();
    assert!(!needs_parent_recompute(&style, &cached));
    style.size = Size::from_cells(5, 4);
    assert!(needs_parent_recompute(&style, &cached));
    style.size = Size::new(SizeValue::Auto(4), SizeValue::Cells(4));
    assert!(needs_parent_recompute(&style, &style.clone()));
    // absolute before and after: the parent is not affected
    style.offset = Offset::Absolute(0, 0);
    let mut was = style.clone();
    was.size = Size::from_cells(1, 1);
    assert!(!needs_parent_recompute(&style, &was));
    // a changed kind of offset is
    let mut moved = cached.clone();
    moved.offset = Offset::AbsolutelyRelative(0, 0);
    assert!(needs_parent_recompute(&moved, &cached));
}

#[test]
fn node_ids() {
    assert_eq!(NodeId::new_from(9).get(), 9);
}

#[test]
fn auto_sizes_take_the_content_size() {
    let size = Size::new(SizeValue::Auto(0), SizeValue::Cells(4));
    assert_eq!(apply_auto_size(size, (7, 9)), Size::new(SizeValue::Auto(7), SizeValue::Cells(4)));
    assert_eq!(add_text_height(5, 2, 1, true), 8);
    assert_eq!(add_text_height(5, 0, 1, true), 5);
    assert_eq!(add_text_height(5, 2, 1, false), 7);
}

#[test]
fn children_sizes_accumulate() {
    let children = vec![(false, (3, 4)), (true, (50, 50)), (false, (2, 7))];
    assert_eq!(accumulate_children(true, (1, 2), (0, 0), &children), ((6, 7), true));
    assert_eq!(accumulate_children(false, (1, 2), (5, 0), &children), ((5, 13), true));
    assert_eq!(accumulate_children(false, (1, 2), (5, 1), &vec![(true, (9, 9))]), ((5, 1), false));
}

#[test]
fn auto_size_from_text_and_children() {
    let mut style = Style::default();
    style.flex_row = true;
    style.gap = (1, 0);
    auto_intrinsic_size(&mut style, "ab\nc", &vec![(false, (3, 4)), (false, (2, 1))]);
    // text 2x2, then two children side by side
    assert_eq!(style.size, Size::new(SizeValue::Auto(8), SizeValue::Auto(4)));
    let mut fixed = Style::default();
    fixed.size = Size::from_cells(1, 1);
    auto_intrinsic_size(&mut fixed, "long text", &vec![(false, (30, 40))]);
    assert_eq!(fixed.size, Size::from_cells(1, 1));
}

#[test]
fn percentage_step_sizes_auto_nodes_and_clamps() {
    let mut style = Style::default();
    style.gap = (0, 1);
    style.max_size = Size::from_cells(100, 6);
    percentage_auto_size(&mut style, (4, 2), &vec![(false, (3, 2)), (false, (6, 3))]);
    // widest of text and children; children stacked with a gap, then the text below a gap
    assert_eq!(style.size, Size::new(SizeValue::Auto(6), SizeValue::Auto(6)));
    let mut percent = Style::default();
    percent.size = Size::new(SizeValue::Percent(50, 10), SizeValue::Auto(0));
    percent.max_size = Size::from_cells(100, 100);
    percentage_auto_size(&mut percent, (0, 0), &vec![(false, (30, 2))]);
    assert_eq!(percent.size, Size::new(SizeValue::Percent(50, 10), SizeValue::Auto(2)));
}

fn empty_text() -> Text {
    Text { input: Vec::new(), visual: Vec::new(), styles: Vec::new(), wrap: TextWrap::default(), cursor: None }
}

fn leaf(width: u16, height: u16, offset: Offset) -> LayoutNode {
    let mut style = Style::default();
    style.size = Size::from_cells(width, height);
    style.max_size = Size::from_cells(100, 100);
    style.offset = offset;
    LayoutNode { style, justify: Justify::Start, align: Align::Start, text: empty_text(), children: Vec::new() }
}

#[test]
fn layout_places_children_one_after_the_other() {
    let mut style = column(6, 1);
    style.size = Size::from_cells(4, 6);
    let children = vec![
        leaf(3, 1, Offset::Translate(0, 0)),
        leaf(2, 2, Offset::Absolute(7, 7)),
        leaf(2, 2, Offset::Translate(0, 0)),
        leaf(1, 1, Offset::AbsolutelyRelative(1, 1)),
    ];
    let tree = LayoutNode { style, justify: Justify::Start, align: Align::Start, text: empty_text(), children };
    let layout = layout_canvas(&tree, Offset::Translate(2, 3)).unwrap();
    assert_eq!(layout.canvas.position, (2, 3));
    assert_eq!(layout.canvas.height(), 6);
    assert_eq!(layout.canvas.width(), 4);
    assert_eq!(
        layout.child_positions,
        vec![Offset::Translate(2, 3), Offset::Translate(2, 5), Offset::Translate(2, 5), Offset::Translate(2, 3)]
    );
    let origins: Vec<(i16, i16)> = layout.children.iter().map(|c| c.canvas.position).collect();
    assert_eq!(origins, vec![(2, 3), (7, 7), (2, 5), (3, 4)]);
    assert_eq!(layout.children[0].canvas.height(), 1);
    assert_eq!(layout.children[2].canvas.width(), 2);
}

#[test]
fn layout_in_a_row_moves_along_the_width() {
    let mut style = column(3, 0);
    style.flex_row = true;
    style.gap = (1, 0);
    style.size = Size::from_cells(10, 3);
    style.padding = Padding::separate(1, 0, 0, 2);
    let children = vec![leaf(3, 1, Offset::Translate(0, 0)), leaf(2, 1, Offset::Translate(0, 1))];
    let tree = LayoutNode { style, justify: Justify::Start, align: Align::Start, text: empty_text(), children };
    let layout = layout_canvas(&tree, Offset::Translate(0, 0)).unwrap();
    assert_eq!(layout.child_positions, vec![Offset::Translate(2, 1), Offset::Translate(6, 1)]);
    let origins: Vec<(i16, i16)> = layout.children.iter().map(|c| c.canvas.position).collect();
    assert_eq!(origins, vec![(2, 1), (6, 2)]);
    assert_eq!(layout.canvas.height(), 4);
}

#[test]
fn layout_is_refused_where_positions_leave_sixteen_bits() {
    let tree = leaf(1, 1, Offset::Translate(1, 0));
    assert!(layout_canvas(&tree, Offset::Translate(i16::MAX, 0)).is_none());
    assert!(layout_canvas(&tree, Offset::Translate(i16::MAX - 1, 0)).is_some());
}
