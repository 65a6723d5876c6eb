//! Finds the pages of a static site that no walk from its entry page reaches.
//!
//! The anchors of each page are extracted, normalized into page identifiers,
//! gathered into a linkage map, turned into a directed graph, and the nodes
//! that are unreachable from the root are reported as orphan candidates.

pub mod extract;
pub mod graph;
pub mod linkage;
pub mod normalize;
pub mod pattern;
pub mod pipeline;
pub mod reach;
pub mod views;
