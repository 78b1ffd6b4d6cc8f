use termnode::text::{StyledUnit, VisualGrapheme};
use termnode::line::Line;

fn cutout(line: &str, column: usize, length: usize, expected: &str) {
    let line = Line::from_string(line);
    let cutout = line.cutout(column, length);
    assert_eq!(
        cutout.text(),
        expected,
        "\nCutting out '{}' at column {} with length {} should result in '{}'",
        line.text(),
        column,
        length,
        expected
    );
}

#[test]
fn normal() {
    let line = "1234567890";
    cutout(line, 0, 0, "");
    cutout(line, 0, 5, "12345");
    cutout(line, 2, 3, "345");
    cutout(line, 5, 4, "6789");
    cutout(line, 8, 10, "90");
    cutout(line, 10, 10, "");
    cutout(line, 20, 10, "");
}

#[test]
fn width() {
    let line = "❤️❤️❤️❤️";
    cutout(line, 0, 0, "");
    cutout(line, 0, 1, " ");
    cutout(line, 0, 2, "❤️");
    cutout(line, 0, 3, "❤️ ");
    cutout(line, 1, 4, " ❤️ ");
    cutout(line, 1, 5, " ❤️❤️");
    cutout(line, 1, 6, " ❤️❤️ ");
    cutout(line, 2, 4, "❤️❤️");
    cutout(line, 2, 5, "❤️❤️ ");
    cutout(line, 7, 4, " ");
    cutout(line, 10, 50, "");
}

#[test]
fn cut_inside_one_wide_grapheme_is_blank() {
    let wide = StyledUnit::Grapheme(VisualGrapheme::new("abc".to_string(), 3, None));
    let line = Line { content: vec![StyledUnit::grapheme("x"), wide, StyledUnit::grapheme("y")] };
    let inner = line.cutout(2, 1);
    assert_eq!(inner.text(), " ");
    assert_eq!(inner.width(), 1);
    assert_eq!(line.cutout(2, 2).text(), "  ");
    assert_eq!(line.cutout(1, 2).text(), "  ");
    assert_eq!(line.cutout(0, 5).text(), "xabcy");
    assert_eq!(line.cutout(2, 3).text(), "  y");
}
