//! Plain-valued parts of the geometry layer: the half-edge and face
//! records of the doubly-connected edge list, keyed by the 64-bit values
//! of their map keys, and the spatial index handle.

use vstd::prelude::*;

verus! {

/// The key of a DCEL vertex, as the 64-bit value of its map key.
#[derive(Debug, Clone, Copy, PartialEq, Eq, Hash, Structural)]
pub struct VertexKey(pub u64);

/// The key of a DCEL half-edge, as the 64-bit value of its map key.
#[derive(Debug, Clone, Copy, PartialEq, Eq, Hash, Structural)]
pub struct HalfEdgeKey(pub u64);

/// The key of a DCEL face, as the 64-bit value of its map key.
#[derive(Debug, Clone, Copy, PartialEq, Eq, Hash, Structural)]
pub struct FaceKey(pub u64);

/// A half-edge: where it starts, its twin, its neighbours along its face,
/// and the face it bounds.
#[derive(Debug, Clone, Copy, PartialEq, Eq, Structural)]
pub struct HalfEdge {
    pub origin: VertexKey,
    pub twin: HalfEdgeKey,
    pub next: Option<HalfEdgeKey>,
    pub prev: Option<HalfEdgeKey>,
    pub face: Option<FaceKey>,
}

/// A face: one half-edge of its outer boundary, and whether it is the
/// unbounded outer face.
#[derive(Debug, Clone, Copy, PartialEq, Eq, Structural)]
pub struct Face {
    pub outer_edge: HalfEdgeKey,
    pub is_unbounded: bool,
}

/// A spatial index over items with bounding boxes. No query is offered
/// yet: the index holds nothing.
pub struct SpatialIndex<T> {
    _phantom: core::marker::PhantomData<T>,
}

impl<T> SpatialIndex<T> {
    pub fn new() -> Self {
        SpatialIndex { _phantom: core::marker::PhantomData }
    }
}

} // verus!
