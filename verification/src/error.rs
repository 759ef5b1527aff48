//! The errors of graph construction, graph mutation and transition resolution.

use vstd::prelude::*;

verus! {

/// Why an operation on a graph or on a frame range was refused.
#[derive(Clone, Debug, PartialEq, Eq)]
pub enum AnimationError {
    /// The default node of a new graph is not among its nodes.
    UnknownDefaultNode,
    /// The named node is not in the graph.
    UnknownNode(String),
    /// A transition leads to a node that is not in the graph.
    UnknownTransitionTarget,
    /// The first frame of a range lies after its last frame.
    InvalidRange,
    /// Transitions kept succeeding for more attempts than the graph has nodes.
    CycleDetected,
}

} // verus!
