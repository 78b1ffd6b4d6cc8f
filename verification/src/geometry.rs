//! Geometry-related types.
use vstd::prelude::*;

verus! {

/// Rectangular area defined by its minimum and maximum x and y coordinates.
#[derive(Debug, Clone, Copy, PartialEq, Eq, Structural, Hash, Default)]
pub struct Rect {
    pub min_x: u16,
    pub max_x: u16,
    pub min_y: u16,
    pub max_y: u16,
}

/// Partial rectangular area where each coordinate can be `None`, indicating that the edge is
/// not defined or is open-ended.
#[derive(Debug, Clone, Copy, PartialEq, Eq, Structural, Hash, Default)]
pub struct PartialRect {
    pub min_x: Option<u16>,
    pub max_x: Option<u16>,
    pub min_y: Option<u16>,
    pub max_y: Option<u16>,
}

impl Rect {
    /// The point `(x, y)` lies inside the half-open rectangle.
    pub open spec fn spec_contains(self, x: int, y: int) -> bool {
        self.min_x <= x < self.max_x && self.min_y <= y < self.max_y
    }

    /// Creates a new rectangle with the given coordinates.
    pub fn new(min_x: u16, max_x: u16, min_y: u16, max_y: u16) -> (r: Self)
        ensures
            r == (Rect { min_x, max_x, min_y, max_y }),
    {
        Self { min_x, max_x, min_y, max_y }
    }

    /// Checks if a point is inside the rectangle.
    pub fn contains(&self, x: u16, y: u16) -> (r: bool)
        ensures
            r == self.spec_contains(x as int, y as int),
    {
        x >= self.min_x && x < self.max_x && y >= self.min_y && y < self.max_y
    }
}

/// A lower edge that is absent admits every coordinate; a present one admits those at or above it.
pub open spec fn lower_edge_admits(edge: Option<u16>, v: int) -> bool {
    match edge {
        Some(e) => e <= v,
        None => true,
    }
}

/// An upper edge that is absent admits every coordinate; a present one admits those below it.
pub open spec fn upper_edge_admits(edge: Option<u16>, v: int) -> bool {
    match edge {
        Some(e) => v < e,
        None => true,
    }
}

impl PartialRect {
    /// The point `(x, y)` satisfies every edge that is defined.
    pub open spec fn spec_contains(self, x: int, y: int) -> bool {
        &&& lower_edge_admits(self.min_x, x)
        &&& upper_edge_admits(self.max_x, x)
        &&& lower_edge_admits(self.min_y, y)
        &&& upper_edge_admits(self.max_y, y)
    }

    /// Creates a new partial rectangle with the given coordinates.
    pub fn new(min_x: Option<u16>, max_x: Option<u16>, min_y: Option<u16>, max_y: Option<u16>) -> (r: Self)
        ensures
            r == (PartialRect { min_x, max_x, min_y, max_y }),
    {
        Self { min_x, max_x, min_y, max_y }
    }

    /// Creates a new partial rectangle from a full rectangle.
    pub fn from_rect(rect: Rect) -> (r: Self)
        ensures
            r == (PartialRect {
                min_x: Some(rect.min_x),
                max_x: Some(rect.max_x),
                min_y: Some(rect.min_y),
                max_y: Some(rect.max_y),
            }),
    {
        Self {
            min_x: Some(rect.min_x),
            max_x: Some(rect.max_x),
            min_y: Some(rect.min_y),
            max_y: Some(rect.max_y),
        }
    }

    /// Creates a new partial rectangle with only the **minimum x** coordinate defined.
    pub fn from_min_x(min_x: u16) -> (r: Self)
        ensures
            r == (PartialRect { min_x: Some(min_x), max_x: None, min_y: None, max_y: None }),
    {
        Self::new(Some(min_x), None, None, None)
    }

    /// Creates a new partial rectangle with only the **maximum x** coordinate defined.
    pub fn from_max_x(max_x: u16) -> (r: Self)
        ensures
            r == (PartialRect { min_x: None, max_x: Some(max_x), min_y: None, max_y: None }),
    {
        Self::new(None, Some(max_x), None, None)
    }

    /// Creates a new partial rectangle with only the **minimum y** coordinate defined.
    pub fn from_min_y(min_y: u16) -> (r: Self)
        ensures
            r == (PartialRect { min_x: None, max_x: None, min_y: Some(min_y), max_y: None }),
    {
        Self::new(None, None, Some(min_y), None)
    }

    /// Creates a new partial rectangle with only the **maximum y** coordinate defined.
    pub fn from_max_y(max_y: u16) -> (r: Self)
        ensures
            r == (PartialRect { min_x: None, max_x: None, min_y: None, max_y: Some(max_y) }),
    {
        Self::new(None, None, None, Some(max_y))
    }

    /// Returns a new partial rectangle with the new **minimum x** coordinate.
    pub fn with_min_x(self, min_x: u16) -> (r: Self)
        ensures
            r == (PartialRect { min_x: Some(min_x), ..self }),
    {
        let mut s = self;
        s.min_x = Some(min_x);
        s
    }

    /// Returns a new partial rectangle with the new **maximum x** coordinate.
    pub fn with_max_x(self, max_x: u16) -> (r: Self)
        ensures
            r == (PartialRect { max_x: Some(max_x), ..self }),
    {
        let mut s = self;
        s.max_x = Some(max_x);
        s
    }

    /// Returns a new partial rectangle with the new **minimum y** coordinate.
    pub fn with_min_y(self, min_y: u16) -> (r: Self)
        ensures
            r == (PartialRect { min_y: Some(min_y), ..self }),
    {
        let mut s = self;
        s.min_y = Some(min_y);
        s
    }

    /// Returns a new partial rectangle with the new **maximum y** coordinate.
    pub fn with_max_y(self, max_y: u16) -> (r: Self)
        ensures
            r == (PartialRect { max_y: Some(max_y), ..self }),
    {
        let mut s = self;
        s.max_y = Some(max_y);
        s
    }

    /// Checks if a point is inside the partial rectangle.
    pub fn contains(&self, x: u16, y: u16) -> (r: bool)
        ensures
            r == self.spec_contains(x as int, y as int),
    {
        let ok_min_x = match self.min_x {
            Some(min_x) => x >= min_x,
            None => true,
        };
        let ok_max_x = match self.max_x {
            Some(max_x) => x < max_x,
            None => true,
        };
        let ok_min_y = match self.min_y {
            Some(min_y) => y >= min_y,
            None => true,
        };
        let ok_max_y = match self.max_y {
            Some(max_y) => y < max_y,
            None => true,
        };
        ok_min_x && ok_max_x && ok_min_y && ok_max_y
    }
}

/// A partial rectangle made from a full one admits exactly the points that the full one
/// contains.
pub proof fn lemma_from_rect_contains_same(rect: Rect, x: int, y: int)
    ensures
        (PartialRect {
            min_x: Some(rect.min_x),
            max_x: Some(rect.max_x),
            min_y: Some(rect.min_y),
            max_y: Some(rect.max_y),
        }).spec_contains(x, y) == rect.spec_contains(x, y),
{
}

/// A partial rectangle with no defined edge contains every point.
pub proof fn lemma_open_rect_contains_all(x: int, y: int)
    ensures
        (PartialRect { min_x: None, max_x: None, min_y: None, max_y: None }).spec_contains(x, y),
{
}

} // verus!
