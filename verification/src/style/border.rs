//! Border styles: the characters a border is drawn with, and which sides a node has.
use vstd::prelude::*;
use crate::code::Color;
use crate::strings::string_of;

verus! {

/// Border style for nodes
#[derive(Debug)]
pub struct BorderStyle {
    pub top: String,
    pub right: String,
    pub bottom: String,
    pub left: String,
    pub top_left: String,
    pub top_right: String,
    pub bottom_left: String,
    pub bottom_right: String,
}

/// The string of one character.
fn char_string(c: char) -> (r: String)
    ensures
        r@ == seq![c],
{
    let mut v: Vec<char> = Vec::new();
    v.push(c);
    let s = string_of(&v);
    proof {
        assert(v@ =~= seq![c]);
    }
    s
}

impl BorderStyle {
    /// The eight strings as (top, right, bottom, left, top-left, top-right, bottom-left,
    /// bottom-right).
    pub open spec fn spec_parts(&self) -> Seq<Seq<char>> {
        seq![
            self.top@,
            self.right@,
            self.bottom@,
            self.left@,
            self.top_left@,
            self.top_right@,
            self.bottom_left@,
            self.bottom_right@,
        ]
    }

    pub fn new(
        top: String,
        right: String,
        bottom: String,
        left: String,
        top_left: String,
        top_right: String,
        bottom_left: String,
        bottom_right: String,
    ) -> (r: Self)
        ensures
            r.spec_parts() == seq![top@, right@, bottom@, left@, top_left@, top_right@, bottom_left@, bottom_right@],
    {
        Self { top, right, bottom, left, top_left, top_right, bottom_left, bottom_right }
    }

    /// Border with sharp corners
    pub fn sharp() -> (r: Self)
        ensures
            r.spec_parts() == seq![seq!['─'], seq!['│'], seq!['─'], seq!['│'], seq!['┌'], seq!['┐'], seq!['└'], seq!['┘']],
    {
        Self::new(
            char_string('─'),
            char_string('│'),
            char_string('─'),
            char_string('│'),
            char_string('┌'),
            char_string('┐'),
            char_string('└'),
            char_string('┘'),
        )
    }

    /// Border with rounded corners
    pub fn rounded() -> (r: Self)
        ensures
            r.spec_parts() == seq![seq!['─'], seq!['│'], seq!['─'], seq!['│'], seq!['╭'], seq!['╮'], seq!['╰'], seq!['╯']],
    {
        Self::new(
            char_string('─'),
            char_string('│'),
            char_string('─'),
            char_string('│'),
            char_string('╭'),
            char_string('╮'),
            char_string('╰'),
            char_string('╯'),
        )
    }

    /// Border with no corners or edges
    pub fn empty() -> (r: Self)
        ensures
            r.spec_parts() == seq![seq![' '], seq![' '], seq![' '], seq![' '], seq![' '], seq![' '], seq![' '], seq![' ']],
    {
        Self::new(
            char_string(' '),
            char_string(' '),
            char_string(' '),
            char_string(' '),
            char_string(' '),
            char_string(' '),
            char_string(' '),
            char_string(' '),
        )
    }
}

impl Default for BorderStyle {
    fn default() -> (r: Self)
        ensures
            r.spec_parts() == seq![seq!['─'], seq!['│'], seq!['─'], seq!['│'], seq!['┌'], seq!['┐'], seq!['└'], seq!['┘']],
    {
        Self::sharp()
    }
}

/// Defines whether a border side is enabled or not
#[derive(Debug)]
pub struct Border {
    pub top: bool,
    pub right: bool,
    pub bottom: bool,
    pub left: bool,
    pub color: Option<Color>,
    pub style: &'static BorderStyle,
}

impl Border {
    /// Creates a new border with specified enabled sides, color, and style
    pub fn new(top: bool, right: bool, bottom: bool, left: bool, color: Option<Color>, style: &'static BorderStyle) -> (r: Self)
        ensures
            r.top == top && r.right == right && r.bottom == bottom && r.left == left && r.color == color && r.style == style,
    {
        Self { top, right, bottom, left, color, style }
    }

    /// Sets the top side of the border
    pub fn with_top(self, top: bool) -> (r: Self)
        ensures
            r == (Border { top, ..self }),
    {
        Border { top, ..self }
    }

    /// Sets the bottom side of the border
    pub fn with_bottom(self, bottom: bool) -> (r: Self)
        ensures
            r == (Border { bottom, ..self }),
    {
        Border { bottom, ..self }
    }

    /// Sets the left side of the border
    pub fn with_left(self, left: bool) -> (r: Self)
        ensures
            r == (Border { left, ..self }),
    {
        Border { left, ..self }
    }

    /// Sets the right side of the border
    pub fn with_right(self, right: bool) -> (r: Self)
        ensures
            r == (Border { right, ..self }),
    {
        Border { right, ..self }
    }

    /// Sets the color of the border
    pub fn with_color(self, color: Option<Color>) -> (r: Self)
        ensures
            r == (Border { color, ..self }),
    {
        Border { color, ..self }
    }

    /// Sets the style of the border
    pub fn with_style(self, style: &'static BorderStyle) -> (r: Self)
        ensures
            r == (Border { style, ..self }),
    {
        Border { style, ..self }
    }

    /// Returns the width of the border
    pub fn width(&self) -> (r: u16)
        ensures
            r == (if self.left { 1int } else { 0 }) + (if self.right { 1int } else { 0 }),
    {
        (if self.left { 1 } else { 0 }) + (if self.right { 1 } else { 0 })
    }

    /// Returns the height of the border
    pub fn height(&self) -> (r: u16)
        ensures
            r == (if self.top { 1int } else { 0 }) + (if self.bottom { 1int } else { 0 }),
    {
        (if self.top { 1 } else { 0 }) + (if self.bottom { 1 } else { 0 })
    }

    /// Returns the size of the top border
    pub fn top(&self) -> (r: u16)
        ensures
            r == if self.top { 1u16 } else { 0u16 },
    {
        if self.top { 1 } else { 0 }
    }

    /// Returns the size of the bottom border
    pub fn bottom(&self) -> (r: u16)
        ensures
            r == if self.bottom { 1u16 } else { 0u16 },
    {
        if self.bottom { 1 } else { 0 }
    }

    /// Returns the size of the left border
    pub fn left(&self) -> (r: u16)
        ensures
            r == if self.left { 1u16 } else { 0u16 },
    {
        if self.left { 1 } else { 0 }
    }

    /// Returns the size of the right border
    pub fn right(&self) -> (r: u16)
        ensures
            r == if self.right { 1u16 } else { 0u16 },
    {
        if self.right { 1 } else { 0 }
    }
}

} // verus!
