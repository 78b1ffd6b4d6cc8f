//! Terminal colors, text attributes and the style codes that switch them.
use vstd::prelude::*;
use crate::text::attrs::Attrs;

verus! {

/// A terminal color.
#[derive(Debug, Clone, Copy, PartialEq, Eq, Structural, Hash)]
pub enum Color {
    /// The terminal's default color.
    Reset,
    Black,
    DarkGrey,
    Red,
    DarkRed,
    Green,
    DarkGreen,
    Yellow,
    DarkYellow,
    Blue,
    DarkBlue,
    Magenta,
    DarkMagenta,
    Cyan,
    DarkCyan,
    White,
    Grey,
    /// A 24-bit color.
    Rgb { r: u8, g: u8, b: u8 },
    /// A color of the 256-color palette.
    AnsiValue(u8),
}

/// A text attribute of the terminal.
#[derive(Debug, Clone, Copy, PartialEq, Eq, Structural, Hash)]
pub enum Attribute {
    /// Resets all the attributes.
    Reset,
    Bold,
    Dim,
    Italic,
    Underlined,
    DoubleUnderlined,
    Undercurled,
    Underdotted,
    Underdashed,
    SlowBlink,
    RapidBlink,
    Reverse,
    Hidden,
    CrossedOut,
    Fraktur,
    NoBold,
    NormalIntensity,
    NoItalic,
    NoUnderline,
    NoBlink,
    NoReverse,
    NoHidden,
    NotCrossedOut,
    Framed,
    Encircled,
    OverLined,
    NotFramedOrEncircled,
    NotOverLined,
}

/// A style code: switches an attribute, the background or the foreground color.
#[derive(Debug, Clone, Copy, PartialEq, Eq, Structural, Hash)]
pub enum Code {
    Attribute(Attribute),
    Background(Color),
    Foreground(Color),
}

impl Code {
    /// The code that ends `self`: a reset of the same kind.
    pub open spec fn spec_into_reset(self) -> Code {
        match self {
            Code::Attribute(_) => Code::Attribute(Attribute::Reset),
            Code::Background(_) => Code::Background(Color::Reset),
            Code::Foreground(_) => Code::Foreground(Color::Reset),
        }
    }

    /// `self` resets its kind of style.
    pub open spec fn spec_is_reset(self) -> bool {
        match self {
            Code::Attribute(a) => a == Attribute::Reset,
            Code::Background(c) => c == Color::Reset,
            Code::Foreground(c) => c == Color::Reset,
        }
    }

    /// Returns the reset variant of the code
    pub fn into_reset(&self) -> (r: Self)
        ensures
            r == self.spec_into_reset(),
    {
        match self {
            Self::Attribute(_) => Self::Attribute(Attribute::Reset),
            Self::Background(_) => Self::Background(Color::Reset),
            Self::Foreground(_) => Self::Foreground(Color::Reset),
        }
    }

    /// True if the code is a reset code
    pub fn is_reset(&self) -> (r: bool)
        ensures
            r == self.spec_is_reset(),
    {
        match self {
            Self::Attribute(attr) => *attr == Attribute::Reset,
            Self::Background(color) => *color == Color::Reset,
            Self::Foreground(color) => *color == Color::Reset,
        }
    }

    /// True if the code is an attribute code
    pub fn is_attribute(&self) -> (r: bool)
        ensures
            r == (self is Attribute),
    {
        match self {
            Self::Attribute(_) => true,
            _ => false,
        }
    }
}

/// Styles active on one grapheme: colors and attributes.
#[derive(Debug, Clone, Copy, PartialEq, Eq, Structural, Default)]
pub struct CodeUnit {
    pub fg: Option<Color>,
    pub bg: Option<Color>,
    pub attrs: Attrs,
}

impl CodeUnit {
    /// Applies an attribute code to the unit's attributes.
    pub fn apply_attr(&mut self, attr: Attribute)
        ensures
            *final(self) == (CodeUnit { attrs: old(self).attrs.spec_apply(attr), ..*old(self) }),
    {
        self.attrs = self.attrs.apply(attr);
    }

    /// Sets the background color.
    pub fn set_bg(&mut self, bg: Color)
        ensures
            *final(self) == (CodeUnit { bg: Some(bg), ..*old(self) }),
    {
        self.bg = Some(bg);
    }

    /// Sets the foreground color.
    pub fn set_fg(&mut self, fg: Color)
        ensures
            *final(self) == (CodeUnit { fg: Some(fg), ..*old(self) }),
    {
        self.fg = Some(fg);
    }

    /// The foreground color, if any.
    pub fn fg(&self) -> (r: Option<Color>)
        ensures
            r == self.fg,
    {
        self.fg
    }

    /// The background color, if any.
    pub fn bg(&self) -> (r: Option<Color>)
        ensures
            r == self.bg,
    {
        self.bg
    }

    /// The attributes.
    pub fn attrs(&self) -> (r: Attrs)
        ensures
            r == self.attrs,
    {
        self.attrs
    }
}

/// Every code has a reset code of the same kind, and that reset code is its own reset.
pub proof fn lemma_reset_of_reset(code: Code)
    ensures
        code.spec_into_reset().spec_is_reset(),
        code.spec_into_reset().spec_into_reset() == code.spec_into_reset(),
        (code.spec_into_reset() is Attribute) == (code is Attribute),
        (code.spec_into_reset() is Background) == (code is Background),
        (code.spec_into_reset() is Foreground) == (code is Foreground),
{
}

} // verus!
