use termnode::app::Viewport;
use termnode::canvas::Canvas;
use termnode::code::{Code, Color};
use termnode::line::Line;
use termnode::style::{Padding, Size, Style};
use termnode::text::{StyledUnit, Text};

fn texts(c: &Canvas) -> Vec<String> {
    c.buffer.iter().map(|l| l.text()).collect()
}

fn canvas_of(lines: &[&str]) -> Canvas {
    Canvas { position: (0, 0), buffer: lines.iter().map(|l| Line::from_string(l)).collect() }
}

#[test]
fn new_canvas_is_blank() {
    let c = Canvas::new(3, 2);
    assert_eq!(texts(&c), vec!["   ", "   "]);
    assert_eq!(c.width(), 3);
    assert_eq!(c.height(), 2);
    assert_eq!(Canvas::new(0, 0).width(), 0);
}

#[test]
fn padding_surrounds_the_lines() {
    let mut c = canvas_of(&["ab"]);
    c.add_padding(Padding::separate(1, 1, 0, 2));
    assert_eq!(texts(&c), vec!["     ", "  ab "]);
    assert_eq!(c.width(), 5);
}

#[test]
fn border_with_rounded_corners() {
    let mut c = canvas_of(&["ab", "cd"]);
    c.add_border((true, true, true, true, None));
    assert_eq!(texts(&c), vec!["╭──╮", "│ab│", "│cd│", "╰──╯"]);
    let mut c = canvas_of(&["ab"]);
    c.add_border((false, true, true, false, None));
    assert_eq!(texts(&c), vec!["│ab", "╰──"]);
}

#[test]
fn colored_border_keeps_the_text() {
    let mut c = canvas_of(&["ab"]);
    c.add_border((true, false, true, true, Some(Color::Red)));
    assert_eq!(texts(&c), vec!["╭──╮", "│ab│"]);
    assert!(matches!(c.buffer[0].content[0], StyledUnit::Code(Code::Foreground(Color::Red))));
    assert_eq!(c.width(), 4);
}

#[test]
fn hit_test_covers_the_canvas_area() {
    let mut c = Canvas::new(3, 2);
    c.position = (2, 1);
    assert!(c.hit_test(2, 1));
    assert!(c.hit_test(4, 2));
    assert!(!c.hit_test(5, 1));
    assert!(!c.hit_test(4, 3));
    assert!(!c.hit_test(1, 1));
}

#[test]
fn normalize_cuts_and_fills_to_the_style_size() {
    let mut c = canvas_of(&["abcdef"]);
    let mut style = Style::default();
    style.size = Size::from_cells(3, 2);
    c.normalize(&style);
    assert_eq!(texts(&c), vec!["abc", "   "]);
    let mut c = canvas_of(&["a", "b", "c"]);
    style.size = Size::from_cells(2, 1);
    c.normalize(&style);
    assert_eq!(texts(&c), vec!["a "]);
}

#[test]
fn colors_wrap_the_lines() {
    let mut c = canvas_of(&["ab", ""]);
    c.add_bg(Some(Color::Blue));
    c.add_fg(None);
    assert_eq!(texts(&c), vec!["ab", ""]);
    assert!(c.buffer[0].content.iter().any(|u| matches!(u, StyledUnit::Code(Code::Background(Color::Blue)))));
    let mut c = canvas_of(&["ab"]);
    c.add_fg(Some(Color::Green));
    assert!(c.buffer[0].content.iter().any(|u| matches!(u, StyledUnit::Code(Code::Foreground(Color::Green)))));
    assert_eq!(texts(&c), vec!["ab"]);
}

#[test]
fn extend_child_reserves_room() {
    let mut style = Style::default();
    style.flex_row = true;
    style.gap = (1, 0);
    style.size = Size::from_cells(5, 2);
    let mut c = Canvas::new(0, 0);
    c.extend_child(&Canvas::new(2, 1), &style, false, true);
    assert_eq!(texts(&c), vec!["  ", ""]);
    c.extend_child(&Canvas::new(2, 1), &style, true, false);
    assert_eq!(texts(&c), vec!["     ", ""]);

    let mut style = Style::default();
    style.gap = (0, 1);
    style.size = Size::from_cells(4, 3);
    let mut c = Canvas::new(0, 0);
    c.extend_child(&Canvas::new(2, 1), &style, false, true);
    assert_eq!(texts(&c), vec!["  "]);
    c.extend_child(&Canvas::new(2, 2), &style, true, false);
    assert_eq!(texts(&c), vec!["  ", "  ", "  "]);
}

#[test]
fn render_to_pastes_within_the_viewport() {
    let mut root = Canvas::new(4, 1);
    let mut child = canvas_of(&["ab"]);
    child.position = (1, 0);
    child.render_to(&Viewport::new(4, 1), &mut root);
    assert_eq!(texts(&root), vec![" ab "]);
    let mut root = Canvas::new(4, 1);
    child.render_to(&Viewport { min: (2, 0), max: (4, 1), screen: (4, 1) }, &mut root);
    assert_eq!(texts(&root), vec!["  b "]);
}

#[test]
fn add_text_appends_the_visual_lines() {
    let text = Text::plain("one\ntwo", None);
    let mut c = Canvas::new(0, 0);
    c.add_text(&text, Size::from_cells(3, 2));
    assert_eq!(texts(&c), vec!["one", "two"]);
    let mut c = Canvas::new(0, 0);
    c.add_text(&text, Size::from_cells(0, 2));
    assert_eq!(c.height(), 0);
}

#[test]
fn canvas_prunes_redundant_codes() {
    let mut c = Canvas {
        position: (0, 0),
        buffer: vec![Line {
            content: vec![
                StyledUnit::Code(Code::Foreground(Color::Red)),
                StyledUnit::Code(Code::Foreground(Color::Red)),
                StyledUnit::grapheme("x"),
            ],
        }],
    };
    c.prune_redundant_codes();
    assert_eq!(c.buffer[0].content.len(), 2);
    assert_eq!(texts(&c), vec!["x"]);
}
