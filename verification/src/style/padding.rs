//! Padding of a node's content.
use vstd::prelude::*;

verus! {

/// Padding for node's style
#[derive(Debug, Clone, Copy, PartialEq, Eq, Structural, Default)]
pub struct Padding {
    pub top: u16,
    pub right: u16,
    pub bottom: u16,
    pub left: u16,
}

impl Padding {
    /// Creates a new padding
    pub fn new(top_bottom: u16, left_right: u16) -> (r: Self)
        ensures
            r == (Padding { top: top_bottom, right: left_right, bottom: top_bottom, left: left_right }),
    {
        Self::separate(top_bottom, left_right, top_bottom, left_right)
    }

    /// Creates a new padding from separate values
    pub fn separate(top: u16, right: u16, bottom: u16, left: u16) -> (r: Self)
        ensures
            r == (Padding { top, right, bottom, left }),
    {
        Self { top, right, bottom, left }
    }

    /// Creates a new padding with identical values
    pub fn all(padding: u16) -> (r: Self)
        ensures
            r == (Padding { top: padding, right: padding, bottom: padding, left: padding }),
    {
        Self::new(padding, padding)
    }

    /// Creates a new padding with only top padding
    pub fn top(top: u16) -> (r: Self)
        ensures
            r == (Padding { top, right: 0, bottom: 0, left: 0 }),
    {
        Self::separate(top, 0, 0, 0)
    }

    /// Creates a new padding with only right padding
    pub fn right(right: u16) -> (r: Self)
        ensures
            r == (Padding { top: 0, right, bottom: 0, left: 0 }),
    {
        Self::separate(0, right, 0, 0)
    }

    /// Creates a new padding with only bottom padding
    pub fn bottom(bottom: u16) -> (r: Self)
        ensures
            r == (Padding { top: 0, right: 0, bottom, left: 0 }),
    {
        Self::separate(0, 0, bottom, 0)
    }

    /// Creates a new padding with only left padding
    pub fn left(left: u16) -> (r: Self)
        ensures
            r == (Padding { top: 0, right: 0, bottom: 0, left }),
    {
        Self::separate(0, 0, 0, left)
    }

    /// Returns the horizontal padding
    pub fn horizontal(&self) -> (r: u16)
        requires
            self.left + self.right <= u16::MAX,
        ensures
            r == self.left + self.right,
    {
        self.left + self.right
    }

    /// Returns the vertical padding
    pub fn vertical(&self) -> (r: u16)
        requires
            self.top + self.bottom <= u16::MAX,
        ensures
            r == self.top + self.bottom,
    {
        self.top + self.bottom
    }

    /// Returns self as a tuple (top, right, bottom, left)
    pub fn tuple(&self) -> (r: (u16, u16, u16, u16))
        ensures
            r == (self.top, self.right, self.bottom, self.left),
    {
        (self.top, self.right, self.bottom, self.left)
    }

    /// Returns self as an array [top, right, bottom, left]
    pub fn vec(&self) -> (r: [u16; 4])
        ensures
            r@ == seq![self.top, self.right, self.bottom, self.left],
    {
        [self.top, self.right, self.bottom, self.left]
    }

    /// Padding from `(top, right, bottom, left)`.
    pub fn from_tuple4(t: (u16, u16, u16, u16)) -> (r: Self)
        ensures
            r == (Padding { top: t.0, right: t.1, bottom: t.2, left: t.3 }),
    {
        Self::separate(t.0, t.1, t.2, t.3)
    }

    /// Padding from `(top, left_right, bottom)`.
    pub fn from_tuple3(t: (u16, u16, u16)) -> (r: Self)
        ensures
            r == (Padding { top: t.0, right: t.1, bottom: t.2, left: t.1 }),
    {
        Self::separate(t.0, t.1, t.2, t.1)
    }

    /// Padding from `(top_bottom, left_right)`.
    pub fn from_tuple2(t: (u16, u16)) -> (r: Self)
        ensures
            r == (Padding { top: t.0, right: t.1, bottom: t.0, left: t.1 }),
    {
        Self::new(t.0, t.1)
    }
}

} // verus!
