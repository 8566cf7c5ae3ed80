use vstd::prelude::*;

use super::{csr_valid, Block};
use crate::types::VId;
use std::collections::HashMap;

verus! {

/// Whether a block of `vc` vertices and `ec` edges fits in `block_size` bytes.
pub open spec fn fits(vc: int, ec: int, block_size: int) -> bool {
    4 + 8 * vc + 4 * ec <= block_size
}

/// Whether a vertex with `n` neighbors is admitted into a builder that holds `vc`
/// vertices and `ec` edges: it fits, or the builder is empty; and the counts stay
/// within what a block header can hold.
pub open spec fn admits(vc: int, ec: int, n: int, block_size: int) -> bool {
    &&& vc + 1 <= 0xffff
    &&& ec + n <= 0xffff
    &&& (vc == 0 || fits(vc + 1, ec + n, block_size))
}

/// Packs vertices and their neighbor lists into one block, up to the block size.
pub struct BlockBuilder {
    /// Vertex table being built: (vertex id, offset of its first edge).
    pub vertices: Vec<(u32, u32)>,
    /// Edge list being built.
    pub edges: Vec<u32>,
    /// The block size in bytes.
    pub block_size: usize,
    /// Number of edges added so far.
    pub current_edge_offset: u32,
}

impl BlockBuilder {
    pub open spec fn wf(&self) -> bool {
        &&& self.current_edge_offset == self.edges.len()
        &&& self.vertices.len() <= 0xffff
        &&& self.edges.len() <= 0xffff
        &&& csr_valid(self.vertices@, self.edges.len() as int)
        &&& (self.vertices.len() <= 1 || fits(
            self.vertices.len() as int,
            self.edges.len() as int,
            self.block_size as int,
        ))
    }

    /// An empty builder for blocks of `block_size` bytes.
    pub fn new(block_size: usize) -> (r: Self)
        ensures
            r.wf(),
            r.vertices@.len() == 0,
            r.edges@.len() == 0,
            r.block_size == block_size,
    {
        BlockBuilder { vertices: Vec::new(), edges: Vec::new(), block_size, current_edge_offset: 0 }
    }

    /// Bytes the block would take now: header, vertex table and edge list.
    pub fn estimated_size(&self) -> (r: usize)
        requires
            self.wf(),
        ensures
            r == 4 + 8 * self.vertices.len() + 4 * self.edges.len(),
    {
        4 + self.vertices.len() * 8 + self.edges.len() * 4
    }

    /// Adds a vertex and its neighbors. Refuses (and changes nothing) when the block would
    /// outgrow its size; an empty builder takes any vertex.
    pub fn add_vertex(&mut self, vertex_id: VId, neighbors: &[VId]) -> (r: bool)
        requires
            old(self).wf(),
        ensures
            final(self).wf(),
            final(self).block_size == old(self).block_size,
            r == admits(
                old(self).vertices.len() as int,
                old(self).edges.len() as int,
                neighbors@.len() as int,
                old(self).block_size as int,
            ),
            r ==> final(self).vertices@ == old(self).vertices@.push(
                (vertex_id, old(self).edges.len() as u32),
            ) && final(self).edges@ == old(self).edges@ + neighbors@,
            !r ==> final(self).vertices@ == old(self).vertices@ && final(self).edges@ == old(
                self,
            ).edges@,
    {
        if self.vertices.len() >= 0xffff || neighbors.len() > 0xffff - self.edges.len() {
            return false;
        }
        let new_size = self.estimated_size() + 8 + neighbors.len() * 4;
        if new_size > self.block_size && !self.is_empty() {
            return false;
        }
        let ghost old_vertices = self.vertices@;
        self.vertices.push((vertex_id, self.current_edge_offset));
        let mut i: usize = 0;
        let ghost old_edges = self.edges@;
        while i < neighbors.len()
            invariant
                i <= neighbors.len(),
                old_edges.len() + neighbors.len() <= 0xffff,
                self.edges@ == old_edges + neighbors@.subrange(0, i as int),
                old_edges == old(self).edges@,
                old_vertices == old(self).vertices@,
                self.vertices@ == old_vertices.push((vertex_id, old_edges.len() as u32)),
                self.block_size == old(self).block_size,
            decreases neighbors.len() - i,
        {
            self.edges.push(neighbors[i]);
            assert(self.edges@ =~= old_edges + neighbors@.subrange(0, i + 1));
            i = i + 1;
        }
        assert(self.edges@ =~= old_edges + neighbors@);
        self.current_edge_offset = self.edges.len() as u32;
        proof {
            let vl = self.vertices@;
            assert forall|a: int, b: int| 0 <= a <= b < vl.len() implies vl[a].1 <= vl[b].1 by {
                if b < old_vertices.len() {
                    assert(vl[a] == old_vertices[a]);
                    assert(vl[b] == old_vertices[b]);
                }
            }
            assert forall|a: int| 0 <= a < vl.len() implies vl[a].1 <= self.edges.len() by {
                if a < old_vertices.len() {
                    assert(vl[a] == old_vertices[a]);
                }
            }
        }
        true
    }

    /// Adds a vertex without neighbors.
    pub fn add_isolated_vertex(&mut self, vertex_id: VId) -> (r: bool)
        requires
            old(self).wf(),
        ensures
            final(self).wf(),
            final(self).block_size == old(self).block_size,
            r == admits(
                old(self).vertices.len() as int,
                old(self).edges.len() as int,
                0,
                old(self).block_size as int,
            ),
            r ==> final(self).vertices@ == old(self).vertices@.push(
                (vertex_id, old(self).edges.len() as u32),
            ) && final(self).edges@ == old(self).edges@,
            !r ==> final(self).vertices@ == old(self).vertices@ && final(self).edges@ == old(
                self,
            ).edges@,
    {
        let none: [VId; 0] = [];
        let r = self.add_vertex(vertex_id, &none);
        assert(none@ =~= Seq::<VId>::empty());
        assert(final(self).edges@ =~= old(self).edges@ + none@);
        r
    }

    /// Whether no vertex has been added.
    pub fn is_empty(&self) -> (r: bool)
        ensures
            r == (self.vertices@.len() == 0),
    {
        self.vertices.len() == 0
    }

    /// Number of vertices added so far.
    pub fn vertex_count(&self) -> (r: usize)
        ensures
            r == self.vertices@.len(),
    {
        self.vertices.len()
    }

    /// Number of edges added so far.
    pub fn edge_count(&self) -> (r: usize)
        ensures
            r == self.edges@.len(),
    {
        self.edges.len()
    }

    /// Builds the block, and maps each vertex id to its position in the vertex table.
    pub fn build(self) -> (r: (Block, HashMap<u32, u16>))
        requires
            self.wf(),
            self.vertices@.len() > 0,
        ensures
            r.0.wf(),
            r.0.vertices() == self.vertices@,
            r.0.edges() == self.edges@,
            fits(self.vertices@.len() as int, self.edges@.len() as int, self.block_size as int)
                ==> r.0.data@.len() == self.block_size,
            forall|k: u32| #[trigger]
                r.1@.contains_key(k) <==> exists|i: int|
                    0 <= i < self.vertices@.len() && self.vertices@[i].0 == k,
            forall|k: u32| #[trigger]
                r.1@.contains_key(k) ==> r.1@[k] < self.vertices@.len()
                    && self.vertices@[r.1@[k] as int].0 == k,
    {
        let mut map: HashMap<u32, u16> = HashMap::new();
        let mut i: usize = 0;
        while i < self.vertices.len()
            invariant
                self.vertices@.len() <= 0xffff,
                i <= self.vertices@.len(),
                forall|k: u32| #[trigger]
                    map@.contains_key(k) <==> exists|j: int| 0 <= j < i && self.vertices@[j].0 == k,
                forall|k: u32| #[trigger]
                    map@.contains_key(k) ==> map@[k] < i && self.vertices@[map@[k] as int].0 == k,
            decreases self.vertices@.len() - i,
        {
            let (vid, _) = self.vertices[i];
            map.insert(vid, i as u16);
            proof {
                assert forall|k: u32| #[trigger] map@.contains_key(k) implies exists|j: int|
                    0 <= j < i + 1 && self.vertices@[j].0 == k by {
                    if k != vid {
                        let j = choose|j: int| 0 <= j < i && self.vertices@[j].0 == k;
                        assert(0 <= j < i + 1 && self.vertices@[j].0 == k);
                    } else {
                        assert(self.vertices@[i as int].0 == k);
                    }
                }
                assert forall|k: u32|
                    (exists|j: int| 0 <= j < i + 1 && self.vertices@[j].0 == k) implies #[trigger]
                    map@.contains_key(k) by {
                    let j = choose|j: int| 0 <= j < i + 1 && self.vertices@[j].0 == k;
                    if j < i {
                        assert(exists|j2: int| 0 <= j2 < i && self.vertices@[j2].0 == k);
                    }
                }
            }
            i = i + 1;
        }
        let block = Block::new(self.vertices, self.edges, self.block_size);
        (block, map)
    }

    /// Empties the builder for reuse.
    pub fn clear(&mut self)
        requires
            old(self).wf(),
        ensures
            final(self).wf(),
            final(self).block_size == old(self).block_size,
            final(self).vertices@.len() == 0,
            final(self).edges@.len() == 0,
    {
        self.vertices.clear();
        self.edges.clear();
        self.current_edge_offset = 0;
    }

    /// Adds a vertex; when it does not fit, builds the block of what was there before,
    /// returns it, and starts a new block that holds just this vertex.
    pub fn add_vertex_or_build(&mut self, vertex_id: VId, neighbors: &[VId]) -> (r: Option<Block>)
        requires
            old(self).wf(),
            neighbors@.len() <= 0xffff,
        ensures
            final(self).wf(),
            final(self).block_size == old(self).block_size,
            r is None <==> admits(
                old(self).vertices.len() as int,
                old(self).edges.len() as int,
                neighbors@.len() as int,
                old(self).block_size as int,
            ),
            r is None ==> final(self).vertices@ == old(self).vertices@.push(
                (vertex_id, old(self).edges.len() as u32),
            ) && final(self).edges@ == old(self).edges@ + neighbors@,
            r matches Some(b) ==> {
                &&& b.wf()
                &&& b.vertices() == old(self).vertices@
                &&& b.edges() == old(self).edges@
                &&& final(self).vertices@ == seq![(vertex_id, 0u32)]
                &&& final(self).edges@ == neighbors@
            },
    {
        if self.add_vertex(vertex_id, neighbors) {
            return None;
        }
        let mut vertices: Vec<(u32, u32)> = Vec::new();
        let mut edges: Vec<u32> = Vec::new();
        std::mem::swap(&mut vertices, &mut self.vertices);
        std::mem::swap(&mut edges, &mut self.edges);
        self.current_edge_offset = 0;
        let block = Block::new(vertices, edges, self.block_size);
        let added = self.add_vertex(vertex_id, neighbors);
        assert(added);
        Some(block)
    }
}

} // verus!
