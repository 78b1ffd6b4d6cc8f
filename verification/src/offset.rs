//! Two-variant offsets: absolute positions and translations.
use vstd::prelude::*;

verus! {

/// Absolute position or translation of a node.
#[derive(Debug, Clone, Copy, PartialEq, Eq, Structural)]
pub enum Offset {
    Absolute(i16, i16),
    Translate(i16, i16),
}

impl Offset {
    /// The horizontal component, whatever the variant.
    pub open spec fn spec_x(self) -> i16 {
        match self {
            Offset::Absolute(x, _) => x,
            Offset::Translate(x, _) => x,
        }
    }

    /// The vertical component, whatever the variant.
    pub open spec fn spec_y(self) -> i16 {
        match self {
            Offset::Absolute(_, y) => y,
            Offset::Translate(_, y) => y,
        }
    }

    /// Composing `self` with `child` does not overflow `i16`.
    pub open spec fn add_fits(self, child: Offset) -> bool {
        child is Translate ==> {
            &&& i16::MIN <= self.spec_x() + child.spec_x() <= i16::MAX
            &&& i16::MIN <= self.spec_y() + child.spec_y() <= i16::MAX
        }
    }

    /// An absolute child keeps its offset; a translated child is moved by `self`.
    pub open spec fn spec_add(self, child: Offset) -> Offset {
        match child {
            Offset::Absolute(..) => child,
            Offset::Translate(x, y) => Offset::Translate(
                (self.spec_x() + x) as i16,
                (self.spec_y() + y) as i16,
            ),
        }
    }

    pub fn x(&self) -> (r: i16)
        ensures
            r == self.spec_x(),
    {
        match self {
            Self::Absolute(x, _) => *x,
            Self::Translate(x, _) => *x,
        }
    }

    pub fn y(&self) -> (r: i16)
        ensures
            r == self.spec_y(),
    {
        match self {
            Self::Absolute(_, y) => *y,
            Self::Translate(_, y) => *y,
        }
    }

    pub fn is_absolute(&self) -> (r: bool)
        ensures
            r == (self is Absolute),
    {
        match self {
            Self::Absolute(..) => true,
            _ => false,
        }
    }

    pub fn is_translate(&self) -> (r: bool)
        ensures
            r == (self is Translate),
    {
        match self {
            Self::Translate(..) => true,
            _ => false,
        }
    }

    pub fn tuple(self) -> (r: (i16, i16))
        ensures
            r == (self.spec_x(), self.spec_y()),
    {
        match self {
            Self::Absolute(x, y) => (x, y),
            Self::Translate(x, y) => (x, y),
        }
    }

    pub fn add(self, child: Self) -> (r: Self)
        requires
            self.add_fits(child),
        ensures
            r == self.spec_add(child),
    {
        match (self, child) {
            (Self::Translate(x1, y1), Self::Translate(x2, y2)) => Self::Translate(x1 + x2, y1 + y2),
            (Self::Absolute(x1, y1), Self::Translate(x2, y2)) => Self::Translate(x1 + x2, y1 + y2),
            (_, Self::Absolute(..)) => child,
        }
    }

    pub fn add_tuple(self, tuple: (i16, i16)) -> (r: Self)
        requires
            self.add_fits(Offset::Translate(tuple.0, tuple.1)),
        ensures
            r == Offset::Translate((self.spec_x() + tuple.0) as i16, (self.spec_y() + tuple.1) as i16),
    {
        self.add(Self::Translate(tuple.0, tuple.1))
    }
}

impl Default for Offset {
    fn default() -> (r: Self)
        ensures
            r == Offset::Translate(0, 0),
    {
        Offset::Translate(0, 0)
    }
}

/// The default offset is neutral for translations: placing a translated child inside it gives
/// the child back.
pub proof fn lemma_default_is_neutral(child: Offset)
    requires
        child is Translate,
    ensures
        Offset::Translate(0, 0).spec_add(child) == child,
{
}

} // verus!
