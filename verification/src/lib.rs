//! A sliding-block puzzle as a state-space graph: rectangular blocks on a
//! fixed grid, the legal one-cell moves between boards, the goal predicates
//! and heuristics a best-first search needs, and the search itself.

pub mod goal;
pub mod graph;
pub mod grid;
pub mod laws;
pub mod search;
