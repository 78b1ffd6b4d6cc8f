use termnode::code::{Attribute, Code, Color};
use termnode::line::Line;
use termnode::text::lines::{count_words, is_whitespace, split_lines};
use termnode::text::styles::{flatten_spans, sort_spans};
use termnode::text::visual::VisualLine;
use termnode::text::{BufferLine, StyleSpan, StyledUnit, Text, TextWrap};

fn row_text(l: &VisualLine) -> String {
    Line { content: l.content.clone() }.text()
}

fn visual_texts(t: &Text) -> Vec<String> {
    t.visual.iter().map(row_text).collect()
}

fn input_texts(t: &Text) -> Vec<String> {
    t.input.iter().map(|l| l.content().to_string()).collect()
}

fn chars(s: &str) -> Vec<char> {
    s.chars().collect()
}

#[test]
fn plain_text_has_a_line_per_line() {
    let t = Text::plain("ab\ncd\n", None);
    assert_eq!(input_texts(&t), vec!["ab", "cd", ""]);
    assert_eq!(visual_texts(&t), vec!["ab", "cd", ""]);
    assert!(t.styles.is_empty());
    assert_eq!(t.wrap, TextWrap::All);
    assert_eq!(t.cursor, None);
    assert_eq!(t.get_visual_size(Some((80, 24))), (2, 3));
    assert_eq!(t.get_visual_size(Some((1, 2))), (1, 2));
    assert_eq!(t.get_visual_size(None), (0, 0));
    assert_eq!(input_texts(&Text::plain("", None)), vec![""]);
    assert_eq!(input_texts(&Text::plain("x\r\ny", None)), vec!["x", "y"]);
}

#[test]
fn plain_text_is_shown_up_to_the_terminal_rows() {
    let t = Text::plain("a\nb\nc", Some(2));
    assert_eq!(input_texts(&t), vec!["a", "b", "c"]);
    assert_eq!(visual_texts(&t), vec!["a", "b"]);
}

#[test]
fn control_characters_are_shown_with_a_caret() {
    let t = Text::plain("a\tb\u{7f}", None);
    assert_eq!(visual_texts(&t), vec!["a^Ib^?"]);
    assert_eq!(input_texts(&t), vec!["a\tb\u{7f}"]);
}

#[test]
fn wrapping_cuts_long_lines_into_rows() {
    let mut t = Text::plain("abcdef\ngh", None);
    assert_eq!(t.wrap_text(4), 1);
    assert_eq!(visual_texts(&t), vec!["abcd", "ef", "gh"]);
    let indices: Vec<(usize, usize)> = t.visual.iter().map(|l| (l.line_index, l.offset)).collect();
    assert_eq!(indices, vec![(0, 0), (0, 4), (1, 0)]);
    let mut t = Text::plain("abc", None);
    assert_eq!(t.wrap_text(0), 2);
    assert_eq!(visual_texts(&t), vec!["", "", ""]);
    let mut t = Text::plain("abcdef", None);
    assert_eq!(t.wrap_text(3), 1);
    assert_eq!(visual_texts(&t), vec!["abc", "def"]);
    let mut t = Text::plain("ab", None);
    assert_eq!(t.wrap_text(5), 0);
    assert_eq!(visual_texts(&t), vec!["ab"]);
}

#[test]
fn wrapped_rows_start_at_their_first_grapheme_and_keep_every_unit() {
    let line = BufferLine::new("ab".to_string());
    let rows = VisualLine::from_buffer_line(&line, 0).into_wrapped(1);
    let starts: Vec<usize> = rows.iter().map(|l| l.offset).collect();
    assert_eq!(starts, vec![0, 1]);
    let line = BufferLine::new("a日bc".to_string());
    let rows = VisualLine::from_buffer_line(&line, 2).into_wrapped(1);
    let texts: Vec<String> = rows.iter().map(row_text).collect();
    assert_eq!(texts, vec!["a", "日", "b", "c"]);
    let starts: Vec<(usize, usize)> = rows.iter().map(|l| (l.line_index, l.offset)).collect();
    assert_eq!(starts, vec![(2, 0), (2, 1), (2, 2), (2, 3)]);
    let line = BufferLine::new("日日a".to_string());
    let rows = VisualLine::from_buffer_line(&line, 0).into_wrapped(3);
    let texts: Vec<String> = rows.iter().map(row_text).collect();
    assert_eq!(texts, vec!["日", "日a"]);
}

#[test]
fn styles_are_applied_to_the_visual_lines() {
    let mut t = Text::plain("hello\nworld", None);
    t.add_styles(vec![StyleSpan::new(Code::Foreground(Color::Red), 1, 1, 2)], None);
    assert_eq!(visual_texts(&t), vec!["hello", "world"]);
    assert_eq!(t.styles, vec![StyleSpan::new(Code::Foreground(Color::Red), 1, 1, 2)]);
    let second = &t.visual[1].content;
    assert_eq!(second[1], StyledUnit::Code(Code::Foreground(Color::Red)));
    assert_eq!(second[4], StyledUnit::Code(Code::Foreground(Color::Reset)));
    assert!(t.visual[0].content.iter().all(|u| u.is_grapheme()));
}

#[test]
fn sorting_spans_by_line_and_character() {
    let a = StyleSpan::new(Code::Foreground(Color::Red), 1, 0, 1);
    let b = StyleSpan::new(Code::Foreground(Color::Blue), 0, 5, 1);
    let c = StyleSpan::new(Code::Background(Color::Red), 0, 2, 1);
    let d = StyleSpan::new(Code::Background(Color::Blue), 0, 2, 3);
    assert_eq!(sort_spans(&vec![a, b, c, d]), vec![c, d, b, a]);
}

#[test]
fn flattening_overlapping_spans() {
    let red = StyleSpan::new(Code::Foreground(Color::Red), 0, 0, 4);
    let blue = StyleSpan::new(Code::Foreground(Color::Blue), 0, 2, 1);
    let bold = StyleSpan::new(Code::Attribute(Attribute::Bold), 0, 1, 1);
    let bg = StyleSpan::new(Code::Background(Color::Green), 1, 0, 2);
    let flat = flatten_spans(&vec![red, bold, blue, bg]);
    assert_eq!(
        flat,
        vec![
            StyleSpan::new(Code::Foreground(Color::Red), 0, 0, 2),
            StyleSpan::new(Code::Attribute(Attribute::Bold), 0, 1, 1),
            StyleSpan::new(Code::Foreground(Color::Blue), 0, 2, 1),
            StyleSpan::new(Code::Foreground(Color::Red), 0, 3, 1),
            StyleSpan::new(Code::Background(Color::Green), 1, 0, 2),
        ]
    );
    assert_eq!(flatten_spans(&vec![]), vec![]);
}

#[test]
fn flattening_lets_the_later_span_win_and_keeps_spans_apart() {
    let red = StyleSpan::new(Code::Foreground(Color::Red), 0, 0, 3);
    let blue = StyleSpan::new(Code::Foreground(Color::Blue), 0, 0, 3);
    assert_eq!(flatten_spans(&vec![red, blue]), vec![StyleSpan::new(Code::Foreground(Color::Blue), 0, 0, 3)]);
    let bold_a = StyleSpan::new(Code::Attribute(Attribute::Bold), 0, 0, 2);
    let bold_b = StyleSpan::new(Code::Attribute(Attribute::Bold), 0, 1, 2);
    assert_eq!(flatten_spans(&vec![bold_a, bold_b]), vec![StyleSpan::new(Code::Attribute(Attribute::Bold), 0, 0, 3)]);
}

#[test]
fn visual_lines_from_buffer_lines() {
    let line = BufferLine::new("ab日".to_string());
    let mut v = VisualLine::from_buffer_line(&line, 3);
    assert_eq!(v.line_index, 3);
    assert_eq!(v.offset, 0);
    assert_eq!(v.width(), 4);
    assert_eq!(v.get_position(1), 1);
    v.add_style(Code::Background(Color::Blue), 0, 1);
    assert_eq!(v.content[0], StyledUnit::Code(Code::Background(Color::Blue)));
    assert_eq!(v.content[2], StyledUnit::Code(Code::Background(Color::Reset)));
    assert_eq!(row_text(&v), "ab日");
    let rows = VisualLine::from_buffer_line(&line, 0).into_wrapped(2);
    let texts: Vec<String> = rows.iter().map(row_text).collect();
    assert_eq!(texts, vec!["ab", "日"]);
}

#[test]
fn lines_and_words() {
    let lines: Vec<String> = split_lines(&chars("a\nbc\r\n\nd")).into_iter().map(|l| l.into_iter().collect()).collect();
    assert_eq!(lines, vec!["a", "bc", "", "d"]);
    assert_eq!(split_lines(&chars("")).len(), 0);
    assert_eq!(split_lines(&chars("x\n")).len(), 1);
    assert_eq!(count_words(&chars("  two words\n and\tmore ")), 4);
    assert_eq!(count_words(&chars("")), 0);
    assert!(is_whitespace('\u{3000}') && is_whitespace('\t') && !is_whitespace('x'));
}

#[test]
fn a_plain_text_keeps_its_string() {
    for s in ["", "one", "one\ntwo", "one\n\ntwo\n", "\n"] {
        assert_eq!(input_texts(&Text::plain(s, None)).join("\n"), s);
    }
}

#[test]
fn wrapping_narrow_text_keeps_every_grapheme() {
    let mut t = Text::plain("abcdefghij", None);
    t.wrap_text(3);
    assert_eq!(visual_texts(&t).concat(), "abcdefghij");
    assert!(t.visual.iter().all(|l| row_text(l).chars().count() <= 3));
}
