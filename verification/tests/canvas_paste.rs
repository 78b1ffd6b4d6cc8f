use termnode::app::Viewport;
use termnode::canvas::Canvas;
use termnode::code::{Code, Color};
use termnode::line::Line;
use termnode::text::StyledUnit;

fn canvas(w: usize, h: usize) -> Canvas {
    Canvas::new(w, h)
}

fn line_ch(s: &str, n: usize) -> Line {
    Line {
        content: (0..n).map(|_| StyledUnit::grapheme(s)).collect(),
    }
}

fn line(v: StyledUnit, n: usize) -> Line {
    Line {
        content: (0..n).map(|_| v.clone()).collect(),
    }
}

/// A viewport as large as a common terminal.
fn terminal_viewport() -> Viewport {
    Viewport::new(80, 24)
}

#[test]
fn paste_eq_len_no_col() {
    let vp = terminal_viewport();
    let mut canvas = canvas(10, 10);
    let line = line_ch("a", 10);

    canvas.paste_on_top(&line, (0, 0), &vp);

    assert_eq!(line.content.len(), 10);
    assert_eq!(canvas.width(), 10);

    assert_eq!(canvas.buffer[0].content, line.content);
}

#[test]
fn paste_eq_start_no_col() {
    let vp = terminal_viewport();
    let mut canvas = canvas(10, 2);
    let line = line_ch("a", 5);

    canvas.paste_on_top(&line, (0, 0), &vp);

    assert_eq!(line.content.len(), 5);
    assert_eq!(canvas.width(), 10);

    assert_eq!(canvas.buffer[0].content[0..5], line.content);
    assert_eq!(canvas.buffer[0].content[5..], line_ch(" ", 5).content);
}

#[test]
fn paste_middle() {
    let vp = terminal_viewport();
    let mut canvas = canvas(5, 1);

    let empty = StyledUnit::grapheme(" ");
    let letter = StyledUnit::grapheme("T");
    let mut line = line(letter.clone(), 1);

    let code = StyledUnit::Code(Code::Foreground(Color::Red));
    let ext = StyledUnit::Code(Code::Foreground(Color::Reset));
    line.set(0, code.clone());

    canvas.paste_on_top(&line, (2, 0), &vp);

    assert_eq!(line.content, [code.clone(), letter.clone()]);
    assert_eq!(
        canvas.buffer[0].content,
        [
            empty.clone(),
            empty.clone(),
            code.clone(),
            letter.clone(),
            ext.clone(),
            empty.clone(),
            empty.clone()
        ]
    );

    canvas.paste_on_top(&line, (2, 0), &vp);
    assert_eq!(line.content, [code.clone(), letter.clone()]);
    assert_ne!(
        canvas.buffer[0].content,
        [
            empty.clone(),
            empty.clone(),
            code.clone(),
            letter.clone(),
            ext.clone(),
            empty.clone(),
            empty.clone()
        ]
    );
    canvas.prune_redundant_codes();
    assert_eq!(
        canvas.buffer[0].content,
        [
            empty.clone(),
            empty.clone(),
            code.clone(),
            letter.clone(),
            ext.clone(),
            empty.clone(),
            empty.clone()
        ]
    );

    assert_eq!(line.content.len(), 2);
    assert_eq!(line.count(), 1);

    assert_eq!(canvas.width(), 5);
    assert_eq!(canvas.buffer[0].content.len(), 5 + 2);
    assert_eq!(canvas.buffer[0].count(), 5);
}
