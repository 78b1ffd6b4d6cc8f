use termnode::line::Line;

fn paste(line: &str, other: &str, column: usize, expected: &str) {
    let mut line = Line::from_string(line);
    let line_before = Line { content: line.content.clone() };
    let other = Line::from_string(other);
    line.paste_on_top(&other, column);
    assert_eq!(
        line.text(),
        expected,
        "\nPasting '{}' on top of '{}' at column {} should result in '{}'",
        other.text(),
        line_before.text(),
        column,
        expected
    );
}

#[test]
fn normal_start() {
    let line = "1234";
    let other = "hello";

    paste(line, other, 0, "hello");
    paste(line, other, 1, "1hello");
    paste(line, other, 2, "12hello");
}

#[test]
fn width_start() {
    let line = "❤️❤️";
    let other = "hello";

    paste(line, other, 0, "hello");
    paste(line, other, 1, " hello");
    paste(line, other, 2, "❤️hello");
    paste(line, other, 3, "❤️ hello");
    paste(line, other, 4, "❤️❤️hello");
}

#[test]
fn normal_full() {
    let line = "123456";
    let other = "hello";

    paste(line, other, 0, "hello6");
    paste(line, other, 1, "1hello");
    paste(line, other, 2, "12hello");
}

#[test]
fn width_full() {
    let line = "❤️❤️ ❤️❤️";
    let other = "hello";

    paste(line, other, 0, "hello❤️❤️");
    paste(line, other, 1, " hello ❤️");
    paste(line, other, 2, "❤️hello❤️");
    paste(line, other, 3, "❤️ hello ");
    paste(line, other, 4, "❤️❤️hello");
}

#[test]
fn width_end() {
    let line = "12❤️";
    let other = "hi";

    paste("❤️", "h", 0, "h ");
    paste(line, other, 0, "hi❤️");
    paste(line, other, 1, "1hi ");
    paste(line, other, 2, "12hi");
    paste(line, other, 3, "12 hi");
    paste(line, other, 4, "12❤️hi");
}

#[test]
fn cutting_out_a_paste_gives_it_back() {
    for column in 0..=6 {
        let old = Line::from_string("ab日de");
        let mut line = Line { content: old.content.clone() };
        let other = Line::from_string("X日Y");
        line.paste_on_top(&other, column);
        assert_eq!(line.width(), if column + 4 > 6 { column + 4 } else { 6 });
        assert_eq!(line.cutout(column, 4).text(), "X日Y");
        assert_eq!(line.cutout(0, column).text(), old.cutout(0, column).text());
        assert_eq!(line.cutout(column + 4, usize::MAX).text(), old.cutout(column + 4, usize::MAX).text());
    }
}

#[test]
fn pasting_an_empty_line_changes_nothing() {
    let mut line = Line::from_string("ab日de");
    line.paste_on_top(&Line::from_string(""), 3);
    assert_eq!(line.text(), "ab日de");
}
