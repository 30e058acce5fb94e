//! Split and merge decisions of the per-face quadtree.

use vstd::prelude::*;

verus! {

/// Result of evaluating a node during quadtree traversal.
#[derive(Clone, Copy, Debug, PartialEq, Eq, Structural)]
pub enum LodAction {
    /// Keep the node as it is.
    Keep,
    /// Split the node into four children (more detail).
    Split,
    /// Merge the node's children back into a single leaf (less detail).
    Merge,
}

} // verus!
