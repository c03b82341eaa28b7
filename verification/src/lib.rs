//! Single-source shortest paths over a weighted directed multigraph,
//! computed by Dijkstra's algorithm on top of an indexed binary min-heap.

pub mod djikstra;
pub mod generate;
pub mod graph;
pub mod heap;
pub mod node;
pub mod print;
pub mod read;

use vstd::prelude::*;

verus! {

} // verus!
