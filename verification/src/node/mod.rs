//! Node identities and layout arithmetic.
use vstd::prelude::*;

pub mod layout;
pub mod tree;

verus! {

/// Unique node id
#[derive(Debug, Clone, Copy, PartialEq, Eq, Structural, PartialOrd, Ord, Hash)]
pub struct NodeId(pub u64);

impl NodeId {
    /// Creates a node id from a u64
    pub fn new_from(id: u64) -> (r: Self)
        ensures
            r.0 == id,
    {
        Self(id)
    }

    /// Returns the id as a u64
    pub fn get(&self) -> (r: u64)
        ensures
            r == self.0,
    {
        self.0
    }
}

} // verus!
