//! Offsets of nodes relative to their parent or to the screen.
use vstd::prelude::*;

verus! {

/// Where a node is placed.
#[derive(Debug, Clone, Copy, PartialEq, Eq, Structural)]
pub enum Offset {
    /// Absolute offset in screen space
    Absolute(i16, i16),
    /// Relative offset from parent, node is positioned absolutely.
    AbsolutelyRelative(i16, i16),
    /// Relative offset from parent, node is positioned inside the parent
    Translate(i16, i16),
}

impl Offset {
    /// The horizontal component, whatever the variant.
    pub open spec fn spec_x(self) -> i16 {
        match self {
            Offset::Absolute(x, _) => x,
            Offset::AbsolutelyRelative(x, _) => x,
            Offset::Translate(x, _) => x,
        }
    }

    /// The vertical component, whatever the variant.
    pub open spec fn spec_y(self) -> i16 {
        match self {
            Offset::Absolute(_, y) => y,
            Offset::AbsolutelyRelative(_, y) => y,
            Offset::Translate(_, y) => y,
        }
    }

    /// Composing a parent offset with a child offset does not overflow `i16`.
    pub open spec fn add_fits(self, child: Offset) -> bool {
        match child {
            Offset::Absolute(..) => true,
            _ => {
                &&& i16::MIN <= self.spec_x() + child.spec_x() <= i16::MAX
                &&& i16::MIN <= self.spec_y() + child.spec_y() <= i16::MAX
            },
        }
    }

    /// The offset of `child` placed inside `self`: an absolute child keeps its own offset,
    /// any other child is translated by the parent's position.
    pub open spec fn spec_add(self, child: Offset) -> Offset {
        match child {
            Offset::Absolute(..) => child,
            _ => Offset::Translate(
                (self.spec_x() + child.spec_x()) as i16,
                (self.spec_y() + child.spec_y()) as i16,
            ),
        }
    }

    pub fn x(&self) -> (r: i16)
        ensures
            r == self.spec_x(),
    {
        match self {
            Self::Absolute(x, _) => *x,
            Self::AbsolutelyRelative(x, _) => *x,
            Self::Translate(x, _) => *x,
        }
    }

    pub fn y(&self) -> (r: i16)
        ensures
            r == self.spec_y(),
    {
        match self {
            Self::Absolute(_, y) => *y,
            Self::AbsolutelyRelative(_, y) => *y,
            Self::Translate(_, y) => *y,
        }
    }

    /// Returns whether the node should be absolutely positioned
    pub fn is_absolute(&self) -> (r: bool)
        ensures
            r == (self is Absolute || self is AbsolutelyRelative),
    {
        match self {
            Self::Absolute(..) | Self::AbsolutelyRelative(..) => true,
            _ => false,
        }
    }

    /// Returns whether the node is positioned relative to its parent's own space
    pub fn is_absolutely_relative(&self) -> (r: bool)
        ensures
            r == (self is AbsolutelyRelative),
    {
        match self {
            Self::AbsolutelyRelative(..) => true,
            _ => false,
        }
    }

    pub fn is_translate(&self) -> (r: bool)
        ensures
            r == (self is Translate),
    {
        match self {
            Self::Translate(..) => true,
            _ => false,
        }
    }

    pub fn tuple(self) -> (r: (i16, i16))
        ensures
            r == (self.spec_x(), self.spec_y()),
    {
        match self {
            Self::Absolute(x, y) => (x, y),
            Self::AbsolutelyRelative(x, y) => (x, y),
            Self::Translate(x, y) => (x, y),
        }
    }

    /// Places `child` inside `self`.
    pub fn add(self, child: Self) -> (r: Self)
        requires
            self.add_fits(child),
        ensures
            r == self.spec_add(child),
    {
        match child {
            Self::Translate(x, y) | Self::AbsolutelyRelative(x, y) => Self::Translate(
                self.x() + x,
                self.y() + y,
            ),
            Self::Absolute(..) => child,
        }
    }

    /// Translates `self` by `tuple`.
    pub fn add_tuple(self, tuple: (i16, i16)) -> (r: Self)
        requires
            self.add_fits(Offset::Translate(tuple.0, tuple.1)),
        ensures
            r == self.spec_add(Offset::Translate(tuple.0, tuple.1)),
            r == Offset::Translate((self.spec_x() + tuple.0) as i16, (self.spec_y() + tuple.1) as i16),
    {
        self.add(Self::Translate(tuple.0, tuple.1))
    }

    /// True if both offsets are the same variant.
    pub fn type_eq(self, other: Self) -> (r: bool)
        ensures
            r == ((self is Absolute && other is Absolute) || (self is AbsolutelyRelative
                && other is AbsolutelyRelative) || (self is Translate && other is Translate)),
    {
        match (self, other) {
            (Self::Absolute(..), Self::Absolute(..)) => true,
            (Self::AbsolutelyRelative(..), Self::AbsolutelyRelative(..)) => true,
            (Self::Translate(..), Self::Translate(..)) => true,
            _ => false,
        }
    }

    /// Moves the offset by `delta`, keeping its variant.
    pub fn add_without_variant_change(self, delta: (i16, i16)) -> (r: Self)
        requires
            i16::MIN <= self.spec_x() + delta.0 <= i16::MAX,
            i16::MIN <= self.spec_y() + delta.1 <= i16::MAX,
        ensures
            r.spec_x() == self.spec_x() + delta.0,
            r.spec_y() == self.spec_y() + delta.1,
            (r is Absolute) == (self is Absolute),
            (r is AbsolutelyRelative) == (self is AbsolutelyRelative),
            (r is Translate) == (self is Translate),
    {
        match self {
            Self::Absolute(x, y) => Self::Absolute(x + delta.0, y + delta.1),
            Self::AbsolutelyRelative(x, y) => Self::AbsolutelyRelative(x + delta.0, y + delta.1),
            Self::Translate(x, y) => Self::Translate(x + delta.0, y + delta.1),
        }
    }
}

impl Default for Offset {
    fn default() -> (r: Self)
        ensures
            r == Offset::Translate(0, 0),
    {
        Offset::Translate(0, 0)
    }
}

/// Placing a child inside a parent never yields an absolutely-relative offset, and an absolute
/// child is placed where it says whatever the parent.
pub proof fn lemma_add_placement(parent: Offset, child: Offset)
    ensures
        !(parent.spec_add(child) is AbsolutelyRelative),
        child is Absolute ==> parent.spec_add(child) == child,
        !(child is Absolute) ==> parent.spec_add(child) is Translate,
{
}

/// Translating by `(0, 0)` keeps the position and turns the offset into a translation.
pub proof fn lemma_add_zero_tuple(o: Offset)
    ensures
        o.spec_add(Offset::Translate(0, 0)) == Offset::Translate(o.spec_x(), o.spec_y()),
{
}

/// Translations compose: placing `b` inside `a` and then `c` inside the result is the same as
/// placing `c` inside `b` first, when no sum overflows.
pub proof fn lemma_add_associative(a: Offset, b: Offset, c: Offset)
    requires
        b is Translate,
        c is Translate,
        a.add_fits(b),
        b.add_fits(c),
        a.spec_add(b).add_fits(c),
        a.add_fits(b.spec_add(c)),
    ensures
        a.spec_add(b).spec_add(c) == a.spec_add(b.spec_add(c)),
{
}

} // verus!
