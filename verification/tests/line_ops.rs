use termnode::code::{Attribute, Code, Color};
use termnode::line::Line;
use termnode::text::StyledUnit;

fn g(s: &str) -> StyledUnit {
    StyledUnit::grapheme(s)
}

fn c(code: Code) -> StyledUnit {
    StyledUnit::Code(code)
}

#[test]
fn text_round_trips_through_a_line() {
    for s in ["", "hello", "a\u{301}b", "日本 ❤️"] {
        assert_eq!(Line::from_string(s).text(), s);
    }
}

#[test]
fn counts_and_widths() {
    let line = Line::from_string("日本x");
    assert_eq!(line.count(), 3);
    assert_eq!(line.width(), 5);
    let blank = Line::new(4);
    assert_eq!(blank.text(), "    ");
    assert_eq!(blank.width(), 4);
    let styled = Line { content: vec![c(Code::Foreground(Color::Red)), g("a"), c(Code::Foreground(Color::Reset))] };
    assert_eq!(styled.count(), 1);
    assert_eq!(styled.width(), 1);
}

#[test]
fn set_replaces_graphemes_and_inserts_codes() {
    let mut line = Line::from_string("abc");
    line.set(1, g("X"));
    assert_eq!(line.text(), "aXc");
    line.set(0, c(Code::Foreground(Color::Red)));
    assert_eq!(line.content[0], c(Code::Foreground(Color::Red)));
    assert_eq!(line.text(), "aXc");
    let mut wide = Line::from_string("日本");
    wide.set(3, g("z"));
    assert_eq!(wide.text(), "日z");
}

#[test]
fn active_and_reset_codes() {
    let line = Line {
        content: vec![
            c(Code::Attribute(Attribute::Bold)),
            c(Code::Foreground(Color::Red)),
            g("a"),
            c(Code::Background(Color::Blue)),
            g("b"),
            c(Code::Attribute(Attribute::Italic)),
            c(Code::Foreground(Color::Reset)),
            g("c"),
        ],
    };
    assert_eq!(line.active_codes_at(3), vec![Code::Attribute(Attribute::Bold), Code::Foreground(Color::Red)]);
    assert_eq!(
        line.active_codes_at(8),
        vec![Code::Attribute(Attribute::Bold), Code::Attribute(Attribute::Italic), Code::Background(Color::Blue)]
    );
    assert_eq!(line.reset_codes_for(8), vec![Code::Background(Color::Reset), Code::Attribute(Attribute::Reset)]);
    assert_eq!(line.reset_codes_for(3), vec![Code::Foreground(Color::Reset), Code::Attribute(Attribute::Reset)]);
    assert_eq!(line.active_codes_at(0), Vec::<Code>::new());
}

#[test]
fn resize_to_fit_pads_or_cuts() {
    let mut line = Line::from_string("abc");
    line.resize_to_fit(5);
    assert_eq!(line.text(), "abc  ");
    assert_eq!(line.width(), 5);
    line.resize_to_fit(2);
    assert_eq!(line.text(), "ab");
    line.resize_to_fit(0);
    assert_eq!(line.width(), 0);
}

#[test]
fn prune_drops_codes_without_effect() {
    let mut line = Line {
        content: vec![
            c(Code::Foreground(Color::Red)),
            c(Code::Foreground(Color::Blue)),
            g("a"),
            c(Code::Foreground(Color::Blue)),
            g("b"),
            c(Code::Foreground(Color::Reset)),
        ],
    };
    line.prune_redundant_codes();
    assert_eq!(
        line.content,
        vec![c(Code::Foreground(Color::Blue)), g("a"), g("b"), c(Code::Foreground(Color::Reset))]
    );
    // a leading reset has nothing to reset
    let mut line = Line { content: vec![c(Code::Background(Color::Reset)), g("a")] };
    line.prune_redundant_codes();
    assert_eq!(line.content, vec![g("a")]);
}

#[test]
fn cutout_keeps_the_active_style() {
    let line = Line {
        content: vec![c(Code::Foreground(Color::Red)), g("a"), g("b"), g("c"), c(Code::Foreground(Color::Reset))],
    };
    let cut = line.cutout(1, 1);
    assert_eq!(cut.text(), "b");
    assert_eq!(cut.width(), 1);
    assert!(cut.content.contains(&c(Code::Foreground(Color::Red))));
}

#[test]
fn paste_keeps_the_width() {
    let mut line = Line::from_string("12345");
    line.paste_on_top(&Line::from_string("日"), 1);
    assert_eq!(line.text(), "1日45");
    assert_eq!(line.width(), 5);
}

#[test]
fn pruning_keeps_only_codes_that_change_colors() {
    let mut line = Line {
        content: vec![
            StyledUnit::Code(Code::Foreground(Color::Red)),
            StyledUnit::Code(Code::Foreground(Color::Red)),
            StyledUnit::grapheme("a"),
            StyledUnit::Code(Code::Foreground(Color::Red)),
            StyledUnit::grapheme("b"),
            StyledUnit::Code(Code::Foreground(Color::Reset)),
        ],
    };
    line.prune_redundant_codes();
    assert_eq!(
        line.content,
        vec![
            StyledUnit::Code(Code::Foreground(Color::Red)),
            StyledUnit::grapheme("a"),
            StyledUnit::grapheme("b"),
            StyledUnit::Code(Code::Foreground(Color::Reset)),
        ]
    );
    let mut codes_only = Line {
        content: vec![StyledUnit::Code(Code::Background(Color::Blue)), StyledUnit::Code(Code::Background(Color::Reset))],
    };
    codes_only.prune_redundant_codes();
    assert!(codes_only.content.is_empty());
}
