//! Per-vertex state of a shortest-path run.

use crate::heap::HeapOrd;
use vstd::prelude::*;

verus! {

/// One entry per graph vertex: its current best distance from the source and
/// the predecessor on the path that produced that distance.
#[derive(Copy, Clone, Debug)]
pub struct Node {
    pub vertex: i64,
    pub distance: u64,
    pub prev: Option<i64>,
}

/// Nodes compare purely by `distance`: two nodes with equal distance are
/// order-equivalent, whatever their vertex or predecessor.
impl PartialEq for Node {
    fn eq(&self, other: &Self) -> (r: bool) {
        self.distance == other.distance
    }
}

impl vstd::std_specs::cmp::PartialEqSpecImpl for Node {
    open spec fn obeys_eq_spec() -> bool {
        true
    }

    open spec fn eq_spec(&self, other: &Node) -> bool {
        self.distance == other.distance
    }
}

impl HeapOrd for Node {
    open spec fn key(&self) -> int {
        self.distance as int
    }

    fn key_lt(&self, other: &Self) -> (r: bool)
        ensures
            r <==> self.key() < other.key(),
    {
        self.distance < other.distance
    }
}

} // verus!
