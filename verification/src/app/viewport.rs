//! The area of the screen a node renders into.
use vstd::prelude::*;
use crate::app::hitmap::{HitMap, in_area};
use crate::node::NodeId;

verus! {

/// Visible area of the screen: `min` inclusive, `max` exclusive, `screen` the full size.
#[derive(Debug, Clone, Copy, PartialEq, Eq)]
pub struct Viewport {
    pub min: (u16, u16),
    pub max: (u16, u16),
    pub screen: (u16, u16),
}

impl Viewport {
    /// Creates a new viewport with `max` and `screen` set to `(width, height)`
    pub fn new(width: u16, height: u16) -> (r: Self)
        ensures
            r == (Viewport { min: (0, 0), max: (width, height), screen: (width, height) }),
    {
        Self { min: (0, 0), max: (width, height), screen: (width, height) }
    }

    /// Sets `max` and `screen` to `(width, height)`, keeping `min`.
    pub fn resize(&mut self, width: u16, height: u16)
        ensures
            *final(self) == (Viewport { min: old(self).min, max: (width, height), screen: (width, height) }),
    {
        self.screen = (width, height);
        self.max = (width, height);
    }

    /// The debug view of the viewport: the last digit of the id on each screen cell of a hit map
    /// of the screen's size, after marking the viewport's area with id 1 (the rest stays 0).
    pub fn debug_render(&self) -> (r: Vec<Vec<u8>>)
        ensures
            r@.len() == self.screen.1,
            forall|y: int| 0 <= y < r@.len() ==> (#[trigger] r@[y])@.len() == self.screen.0,
            forall|y: int, x: int|
                0 <= y < self.screen.1 && 0 <= x < self.screen.0 ==> #[trigger] r@[y]@[x] == if in_area(
                    x,
                    y,
                    self,
                    self.screen.1 as nat,
                    self.screen.0 as nat,
                ) {
                    1u8
                } else {
                    0u8
                },
    {
        let mut hitmap = HitMap::new(self.screen.0 as usize, self.screen.1 as usize);
        let ghost before = hitmap.view();
        proof {
            if self.screen.1 > 0 {
                assert(hitmap.width() == self.screen.0);
            } else {
                assert(hitmap.width() == 0);
            }
        }
        hitmap.add_target_area(NodeId::new_from(1), self);
        let r = hitmap.debug_digits();
        proof {
            assert forall|y: int| 0 <= y < r@.len() implies (#[trigger] r@[y])@.len() == self.screen.0 by {
                assert(before[y].len() == self.screen.0);
            }
            assert forall|y: int, x: int|
                0 <= y < self.screen.1 && 0 <= x < self.screen.0 implies #[trigger] r@[y]@[x] == if in_area(
                    x,
                    y,
                    self,
                    self.screen.1 as nat,
                    self.screen.0 as nat,
                ) {
                    1u8
                } else {
                    0u8
                } by {
                assert(before[y].len() == self.screen.0);
                assert(before[y][x] == NodeId(0));
                assert(hitmap.view()[y][x] == if in_area(x, y, self, self.screen.1 as nat, self.screen.0 as nat) { NodeId(1) } else { NodeId(0) });
            }
        }
        r
    }
}

} // verus!
