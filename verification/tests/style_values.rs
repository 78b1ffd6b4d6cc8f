use termnode::code::Attribute;
use termnode::style::{Align, Border, BorderStyle, Justify, Offset, Padding, Size, SizeValue, Style};
use termnode::text::Attrs;
use termnode::{PartialRect, Rect};

#[test]
fn size_values_parse() {
    assert_eq!(SizeValue::parse("auto"), Some(SizeValue::Auto(0)));
    assert_eq!(SizeValue::parse("50%"), Some(SizeValue::Percent(50, 0)));
    assert_eq!(SizeValue::parse("42"), Some(SizeValue::Cells(42)));
    assert_eq!(SizeValue::parse("+5%"), Some(SizeValue::Percent(5, 0)));
    assert_eq!(SizeValue::parse("+5"), None);
    assert_eq!(SizeValue::parse(""), None);
    assert_eq!(SizeValue::parse("70000"), None);
    assert_eq!(SizeValue::parse("1x"), None);
    assert_eq!(SizeValue::parse("%"), None);
    assert_eq!(Size::parse("100%", "3"), Some(Size::new(SizeValue::Percent(100, 0), SizeValue::Cells(3))));
    assert_eq!(Size::parse("100%", "x"), None);
}

#[test]
fn size_values_compute_and_clamp() {
    let parent = SizeValue::Cells(33);
    assert_eq!(SizeValue::percent(50).compute_size(parent, 7), SizeValue::Percent(50, 16));
    assert_eq!(SizeValue::auto().compute_size(parent, 7), SizeValue::Auto(7));
    assert_eq!(SizeValue::cells(4).compute_size(parent, 7), SizeValue::Cells(4));
    assert_eq!(SizeValue::Cells(12).clamp_computed_size(SizeValue::Cells(2), SizeValue::Cells(10)), SizeValue::Cells(10));
    assert_eq!(SizeValue::Auto(1).clamp_computed_size(SizeValue::Cells(2), SizeValue::Cells(10)), SizeValue::Auto(2));
    assert_eq!(SizeValue::Percent(5, 1).set_computed_size(9).computed_size(), 9);
    assert!(SizeValue::Auto(3).is_auto() && SizeValue::Cells(3).is_cells() && SizeValue::Percent(3, 0).is_percent());
    let size = Size::from_percent(50, 100).compute_size(Size::from_cells(80, 24), (0, 0));
    assert_eq!(size.tuple(), (40, 24));
    assert_eq!(Size::from_cells(3, 4).width(), SizeValue::Cells(3));
}

#[test]
fn style_sizes() {
    let mut style = Style::default();
    style.size = Size::from_cells(10, 5);
    style.min_size = Size::from_cells(0, 6);
    style.max_size = Size::from_cells(8, 100);
    style.padding = Padding::new(1, 2);
    style.border = (true, true, false, true, None);
    assert_eq!(style.clamped_width(), 8);
    assert_eq!(style.clamped_height(), 6);
    assert_eq!(style.extra_width(), 5);
    assert_eq!(style.extra_height(), 4);
    assert_eq!(style.total_width(), 13);
    assert_eq!(style.total_height(), 10);
    assert_eq!(style.total_width_unclamped(), 15);
    assert_eq!(style.total_height_unclamped(), 9);
    // a minimum above the maximum: the maximum wins
    style.size = Size::from_cells(5, 5);
    style.min_size = Size::from_cells(10, 10);
    style.max_size = Size::from_cells(8, 100);
    assert_eq!(style.clamped_width(), 8);
    assert_eq!(style.clamped_height(), 10);
}

#[test]
fn percentage_size_subtracts_padding_and_border() {
    let mut style = Style::default();
    style.size = Size::from_percent(50, 100);
    style.max_size = Size::from_cells(1000, 1000);
    style.padding = Padding::all(1);
    let size = style.compute_percentage_size(Size::from_cells(80, 24), "");
    assert_eq!(size, (0, 0));
    assert_eq!(style.size, Size::new(SizeValue::Percent(50, 38), SizeValue::Percent(100, 22)));
    // an auto height grows by the rows the wrapped text adds to its lines
    let mut style = Style::default();
    style.size = Size::new(SizeValue::Percent(10, 0), SizeValue::Auto(0));
    style.max_size = Size::from_cells(1000, 1000);
    let size = style.compute_percentage_size(Size::from_cells(80, 24), "hello world
ab");
    assert_eq!(size, (8, 3));
    assert_eq!(style.size, Size::new(SizeValue::Percent(10, 8), SizeValue::Auto(1)));
}

#[test]
fn intrinsic_size_of_text() {
    let mut style = Style::default();
    style.max_size = Size::from_cells(1000, 1000);
    style.compute_intrinsic_size("hello\nall");
    assert_eq!(style.size.tuple(), (5, 2));
}

#[test]
fn alignment_offsets() {
    assert_eq!(Align::Start.alignment_offset(10, 4), 0);
    assert_eq!(Align::Center.alignment_offset(10, 4), 3);
    assert_eq!(Align::End.alignment_offset(10, 4), 6);
    assert_eq!(Align::End.alignment_offset(3, 4), -1);
    assert_eq!(Justify::End.get_start_offset(6, 2, true), (6, 0));
    assert_eq!(Justify::Center.get_start_offset(6, 2, false), (0, 3));
    assert_eq!(Justify::Start.get_start_offset(6, 2, false), (0, 0));
    assert!(Justify::SpaceEvenly.is_spaced() && !Justify::Center.is_spaced());
}

#[test]
fn offsets_compose() {
    let parent = Offset::Translate(2, 3);
    assert_eq!(parent.add(Offset::Translate(1, 1)), Offset::Translate(3, 4));
    assert_eq!(parent.add(Offset::AbsolutelyRelative(1, 1)), Offset::Translate(3, 4));
    assert_eq!(parent.add(Offset::Absolute(1, 1)), Offset::Absolute(1, 1));
    assert_eq!(parent.add_tuple((-2, 1)), Offset::Translate(0, 4));
    assert_eq!(Offset::Absolute(5, 6).tuple(), (5, 6));
    assert!(Offset::Absolute(0, 0).type_eq(Offset::Absolute(3, 3)));
    assert!(!Offset::Absolute(0, 0).type_eq(Offset::Translate(0, 0)));
    assert_eq!(Offset::AbsolutelyRelative(1, 2).add_without_variant_change((1, -2)), Offset::AbsolutelyRelative(2, 0));
    assert_eq!(Offset::default(), Offset::Translate(0, 0));
}

#[test]
fn paddings() {
    let p = Padding::separate(1, 2, 3, 4);
    assert_eq!(p.horizontal(), 6);
    assert_eq!(p.vertical(), 4);
    assert_eq!(Padding::new(1, 2), Padding::separate(1, 2, 1, 2));
    assert_eq!(Padding::from_tuple3((1, 2, 3)), Padding::separate(1, 2, 3, 2));
    assert_eq!(Padding::left(5), Padding::separate(0, 0, 0, 5));
}

#[test]
fn rectangles() {
    let r = Rect::new(1, 4, 2, 3);
    assert!(r.contains(1, 2));
    assert!(!r.contains(4, 2));
    assert!(!r.contains(1, 3));
    let p = PartialRect::from_rect(r);
    assert!(p.contains(3, 2));
    assert!(PartialRect::default().contains(1000, 1000));
    assert!(!PartialRect::from_max_y(2).contains(0, 2));
    assert!(PartialRect::from_min_x(2).with_max_x(3).contains(2, 99));
}

#[test]
fn attribute_bits() {
    let attrs = Attrs::default().apply(Attribute::Bold).apply(Attribute::Underlined);
    assert!(attrs.get_bit(0) && attrs.get_bit(3) && !attrs.get_bit(1));
    assert_eq!(attrs.get(3), Some(Attribute::Underlined));
    let attrs = attrs.apply(Attribute::DoubleUnderlined);
    assert!(!attrs.get_bit(3) && attrs.get_bit(4));
    let attrs = attrs.apply(Attribute::NormalIntensity);
    assert_eq!(attrs.get(0), None);
    assert_eq!(Attrs::get_reset_attr(Attribute::Italic), Attribute::NoItalic);
    assert_eq!(Attrs(0b1).into_change_codes(Attrs(0b100)), vec![Attribute::NormalIntensity, Attribute::Italic]);
    let extracted = Attrs(0b101).extract();
    assert_eq!(extracted.len(), 14);
    assert_eq!(extracted[0], Some(Attribute::Bold));
    assert_eq!(extracted[1], None);
    assert_eq!(extracted[2], Some(Attribute::Italic));
    assert!(Attrs(0).is_empty());
    let mut bits = Attrs(0b1010);
    assert_eq!(bits.next(), Some(Attribute::Dim));
    assert_eq!(bits, Attrs(0b1000));
    assert_eq!(Attrs(0b11111000).unset_underlined(), Attrs(0));
}

#[test]
fn borders() {
    static STYLE: std::sync::OnceLock<BorderStyle> = std::sync::OnceLock::new();
    let style = STYLE.get_or_init(BorderStyle::rounded);
    let border = Border::new(true, false, true, false, None, style).with_left(true);
    assert_eq!(border.width(), 1);
    assert_eq!(border.height(), 2);
    assert_eq!((border.top(), border.bottom(), border.left(), border.right()), (1, 1, 1, 0));
    assert_eq!(style.top_left, "╭");
    assert_eq!(BorderStyle::sharp().bottom_right, "┘");
    assert_eq!(BorderStyle::empty().left, " ");
}

#[test]
fn size_from_convertible_values() {
    let size = Size::new_from(SizeValue::Cells(3), SizeValue::Percent(50, 0));
    assert_eq!(size, Size::new(SizeValue::Cells(3), SizeValue::Percent(50, 0)));
}
