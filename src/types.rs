use vstd::prelude::*;

verus! {

/// Dense vertex identifier.
pub type VId = u32;

/// Start offset of a vertex's neighbors inside a block's edge list.
pub type Offset = u32;

/// A list of vertex identifiers.
pub type VIdList = Vec<VId>;

/// A list of directed edges.
pub type EdgeList = Vec<(VId, VId)>;

/// Community identifier taken from the input graph.
pub type CommId = u32;

/// Storage-level grouping of communities; one bucket each.
pub type VirtualCommId = u16;

/// A vertex entry of a block: the vertex and the start of its neighbors.
pub type VertexEntry = (VId, Offset);

/// The vertex table of a block.
pub type VertexList = Vec<VertexEntry>;

/// Index of a block inside a bucket.
pub type PageId = u32;

/// Where the vertex table lies inside a block's bytes.
#[derive(Debug, Clone, Copy)]
pub struct VertexListView {
    /// Byte offset of the first vertex entry.
    pub offset: usize,
    /// Length in bytes (vertex count times eight).
    pub len: usize,
}

/// Where the edge list lies inside a block's bytes.
#[derive(Debug, Clone, Copy)]
pub struct VIdListView {
    /// Byte offset of the first edge.
    pub offset: usize,
    /// Length in bytes (edge count times four).
    pub len: usize,
}

} // verus!
