use vstd::prelude::*;

use crate::codec::{be16_at, be32_at, push_be16, push_be32, read_be16, read_be32, lemma_be16_round_trip, lemma_be32_round_trip};
use crate::types::{VId, VIdList, VIdListView, VertexList, VertexListView};

pub mod builder;
pub mod iterator;

use iterator::{BlockEdgeIterator, NeighborIterator, VertexIterator};

verus! {

/// Size of a block header: vertex count and edge count, two bytes each.
pub const HEADER_SIZE: usize = 4;

/// Offsets of a vertex table are CSR offsets into an edge list of `ec` entries:
/// non-decreasing, and none beyond the end of the edge list.
pub open spec fn csr_valid(vl: Seq<(u32, u32)>, ec: int) -> bool {
    &&& forall|i: int, j: int| 0 <= i <= j < vl.len() ==> vl[i].1 <= vl[j].1
    &&& forall|i: int| 0 <= i < vl.len() ==> vl[i].1 <= ec
}

/// End of vertex `i`'s neighbor range: the next vertex's offset, or the edge count.
pub open spec fn csr_end(vl: Seq<(u32, u32)>, ec: int, i: int) -> int {
    if i + 1 < vl.len() {
        vl[i + 1].1 as int
    } else {
        ec
    }
}

/// Neighbors of the `i`-th vertex of a vertex table over the edge list `el`.
pub open spec fn csr_neighbors(vl: Seq<(u32, u32)>, el: Seq<u32>, i: int) -> Seq<u32> {
    el.subrange(vl[i].1 as int, csr_end(vl, el.len() as int, i))
}

/// The edges `(src, d)` for each `d` of `ns`, in order.
pub open spec fn pairs_of(src: u32, ns: Seq<u32>) -> Seq<(u32, u32)> {
    ns.map_values(|d: u32| (src, d))
}

/// All edges of the vertices from the `i`-th on, vertex by vertex, in table order.
pub open spec fn csr_edges_from(vl: Seq<(u32, u32)>, el: Seq<u32>, i: int) -> Seq<(u32, u32)>
    decreases vl.len() - i,
{
    if i < 0 || i >= vl.len() {
        Seq::empty()
    } else {
        pairs_of(vl[i].0, csr_neighbors(vl, el, i)) + csr_edges_from(vl, el, i + 1)
    }
}

/// Number of edges that the vertices from the `i`-th on own.
pub proof fn lemma_edges_from_len(vl: Seq<(u32, u32)>, el: Seq<u32>, i: int)
    requires
        csr_valid(vl, el.len() as int),
        0 <= i < vl.len(),
    ensures
        csr_edges_from(vl, el, i).len() == el.len() - vl[i].1,
    decreases vl.len() - i,
{
    let ns = csr_neighbors(vl, el, i);
    assert(vl[i].1 <= csr_end(vl, el.len() as int, i));
    assert(pairs_of(vl[i].0, ns).len() == ns.len());
    if i + 1 < vl.len() {
        lemma_edges_from_len(vl, el, i + 1);
    } else {
        assert(csr_edges_from(vl, el, i + 1).len() == 0);
    }
}

/// Vertex count stored in a block's header.
pub open spec fn blk_vc(d: Seq<u8>) -> int {
    be16_at(d, 0)
}

/// Edge count stored in a block's header.
pub open spec fn blk_ec(d: Seq<u8>) -> int {
    be16_at(d, 2)
}

/// The `i`-th entry of a block's vertex table.
pub open spec fn blk_vertex(d: Seq<u8>, i: int) -> (u32, u32) {
    (be32_at(d, 4 + 8 * i) as u32, be32_at(d, 8 + 8 * i) as u32)
}

/// The `j`-th entry of a block's edge list.
pub open spec fn blk_edge(d: Seq<u8>, j: int) -> u32 {
    be32_at(d, 4 + 8 * blk_vc(d) + 4 * j) as u32
}

/// The vertex table that a block's bytes hold.
pub open spec fn blk_vertices(d: Seq<u8>) -> Seq<(u32, u32)> {
    Seq::new(blk_vc(d) as nat, |i: int| blk_vertex(d, i))
}

/// The edge list that a block's bytes hold.
pub open spec fn blk_edges(d: Seq<u8>) -> Seq<u32> {
    Seq::new(blk_ec(d) as nat, |j: int| blk_edge(d, j))
}

/// Bytes that decode as a block: a header, the vertex table and edge list that it
/// announces, and CSR offsets that stay inside that edge list.
pub open spec fn decodable(d: Seq<u8>) -> bool {
    &&& d.len() >= 4
    &&& d.len() >= 4 + 8 * blk_vc(d) + 4 * blk_ec(d)
    &&& csr_valid(blk_vertices(d), blk_ec(d))
}

/// Bytes laid out as the block of vertex table `vl` and edge list `el`.
pub open spec fn block_layout(d: Seq<u8>, vl: Seq<(u32, u32)>, el: Seq<u32>) -> bool {
    &&& d.len() >= 4 + 8 * vl.len() + 4 * el.len()
    &&& blk_vc(d) == vl.len()
    &&& blk_ec(d) == el.len()
    &&& forall|i: int| 0 <= i < vl.len() ==> #[trigger] blk_vertex(d, i) == vl[i]
    &&& forall|j: int| 0 <= j < el.len() ==> #[trigger] blk_edge(d, j) == el[j]
}

/// Bytes of a block: a fixed-size page holding a CSR fragment.
pub struct Block {
    pub vertex_count: u16,
    pub edge_count: u16,
    pub vertex_list_view: VertexListView,
    pub edge_list_view: VIdListView,
    pub data: Vec<u8>,
}

/// Why bytes do not decode as a block.
#[derive(Debug, Clone, Copy, PartialEq, Eq, Structural)]
pub enum BlockError {
    /// Fewer than four bytes: no header.
    MissingHeader,
    /// Fewer bytes than the header announces.
    Truncated,
    /// Vertex offsets that decrease or point past the edge list.
    BadOffsets,
}

impl Block {
    /// The vertex table.
    pub open spec fn vertices(&self) -> Seq<(u32, u32)> {
        blk_vertices(self.data@)
    }

    /// The edge list.
    pub open spec fn edges(&self) -> Seq<u32> {
        blk_edges(self.data@)
    }

    /// Neighbors of the vertex at `i` in the vertex table.
    pub open spec fn neighbors(&self, i: int) -> Seq<u32> {
        csr_neighbors(self.vertices(), self.edges(), i)
    }

    /// All edges of the block, vertex by vertex.
    pub open spec fn edge_pairs(&self) -> Seq<(u32, u32)> {
        csr_edges_from(self.vertices(), self.edges(), 0)
    }

    pub open spec fn wf(&self) -> bool {
        &&& decodable(self.data@)
        &&& self.vertex_count as int == blk_vc(self.data@)
        &&& self.edge_count as int == blk_ec(self.data@)
        &&& self.vertex_list_view.offset == 4
        &&& self.vertex_list_view.len == 8 * self.vertex_count
        &&& self.edge_list_view.offset == 4 + 8 * self.vertex_count
        &&& self.edge_list_view.len == 4 * self.edge_count
    }

    /// Lays out a vertex table and an edge list as a block of `block_size` bytes,
    /// zero-padded. A block that holds a single vertex may be larger.
    pub fn new(vertex_list: VertexList, edge_list: VIdList, block_size: usize) -> (r: Block)
        requires
            vertex_list.len() <= 0xffff,
            edge_list.len() <= 0xffff,
            csr_valid(vertex_list@, edge_list.len() as int),
            4 + 8 * vertex_list.len() + 4 * edge_list.len() <= block_size
                || vertex_list.len() <= 1,
        ensures
            r.wf(),
            block_layout(r.data@, vertex_list@, edge_list@),
            r.vertices() == vertex_list@,
            r.edges() == edge_list@,
            r.data@.len() == if 4 + 8 * vertex_list.len() + 4 * edge_list.len() <= block_size {
                block_size as int
            } else {
                4 + 8 * vertex_list.len() + 4 * edge_list.len()
            },
            forall|k: int|
                4 + 8 * vertex_list.len() + 4 * edge_list.len() <= k < r.data@.len()
                    ==> r.data@[k] == 0,
    {
        let vertex_count = vertex_list.len() as u16;
        let edge_count = edge_list.len() as u16;
        let vertex_list_size = vertex_list.len() * 8;
        let edge_list_size = edge_list.len() * 4;
        let total_size = HEADER_SIZE + vertex_list_size + edge_list_size;

        let mut data: Vec<u8> = Vec::with_capacity(total_size);
        push_be16(&mut data, vertex_count);
        push_be16(&mut data, edge_count);
        proof {
            lemma_be16_round_trip(vertex_count);
            lemma_be16_round_trip(edge_count);
        }
        assert(blk_vc(data@) == vertex_count);
        assert(blk_ec(data@) == edge_count);

        let mut i: usize = 0;
        while i < vertex_list.len()
            invariant
                i <= vertex_list.len() <= 0xffff,
                data@.len() == 4 + 8 * i,
                blk_vc(data@) == vertex_list.len(),
                blk_ec(data@) == edge_list.len(),
                forall|k: int| 0 <= k < i ==> #[trigger] blk_vertex(data@, k) == vertex_list@[k],
            decreases vertex_list.len() - i,
        {
            let (vid, offset) = vertex_list[i];
            let ghost before = data@;
            push_be32(&mut data, vid);
            push_be32(&mut data, offset);
            proof {
                lemma_be32_round_trip(vid);
                lemma_be32_round_trip(offset);
                assert forall|k: int| 0 <= k < i + 1 implies #[trigger] blk_vertex(data@, k)
                    == vertex_list@[k] by {
                    if k < i {
                        assert(blk_vertex(before, k) == vertex_list@[k]);
                    }
                }
            }
            i = i + 1;
        }

        let mut j: usize = 0;
        while j < edge_list.len()
            invariant
                j <= edge_list.len() <= 0xffff,
                vertex_list.len() <= 0xffff,
                data@.len() == 4 + 8 * vertex_list.len() + 4 * j,
                blk_vc(data@) == vertex_list.len(),
                blk_ec(data@) == edge_list.len(),
                forall|k: int|
                    0 <= k < vertex_list.len() ==> #[trigger] blk_vertex(data@, k)
                        == vertex_list@[k],
                forall|k: int| 0 <= k < j ==> #[trigger] blk_edge(data@, k) == edge_list@[k],
            decreases edge_list.len() - j,
        {
            let ghost before = data@;
            push_be32(&mut data, edge_list[j]);
            proof {
                lemma_be32_round_trip(edge_list@[j as int]);
                assert forall|k: int| 0 <= k < vertex_list.len() implies #[trigger] blk_vertex(
                    data@,
                    k,
                ) == vertex_list@[k] by {
                    assert(blk_vertex(before, k) == vertex_list@[k]);
                }
                assert forall|k: int| 0 <= k < j + 1 implies #[trigger] blk_edge(data@, k)
                    == edge_list@[k] by {
                    if k < j {
                        assert(blk_edge(before, k) == edge_list@[k]);
                    }
                }
            }
            j = j + 1;
        }

        while data.len() < block_size
            invariant
                total_size == 4 + 8 * vertex_list.len() + 4 * edge_list.len(),
                total_size <= data@.len(),
                data@.len() <= block_size || data@.len() == total_size,
                blk_vc(data@) == vertex_list.len(),
                blk_ec(data@) == edge_list.len(),
                forall|k: int|
                    0 <= k < vertex_list.len() ==> #[trigger] blk_vertex(data@, k)
                        == vertex_list@[k],
                forall|k: int| 0 <= k < edge_list.len() ==> #[trigger] blk_edge(data@, k) == edge_list@[k],
                forall|k: int| total_size <= k < data@.len() ==> data@[k] == 0,
            decreases block_size - data@.len(),
        {
            let ghost before = data@;
            data.push(0u8);
            proof {
                assert forall|k: int| 0 <= k < vertex_list.len() implies #[trigger] blk_vertex(
                    data@,
                    k,
                ) == vertex_list@[k] by {
                    assert(blk_vertex(before, k) == vertex_list@[k]);
                }
                assert forall|k: int| 0 <= k < edge_list.len() implies #[trigger] blk_edge(data@, k)
                    == edge_list@[k] by {
                    assert(blk_edge(before, k) == edge_list@[k]);
                }
            }
        }
        proof {
            assert(blk_vertices(data@) =~= vertex_list@);
            assert(blk_edges(data@) =~= edge_list@);
        }
        Block {
            vertex_count,
            edge_count,
            vertex_list_view: VertexListView { offset: HEADER_SIZE, len: vertex_list_size },
            edge_list_view: VIdListView { offset: HEADER_SIZE + vertex_list_size, len: edge_list_size },
            data,
        }
    }

    /// The block's bytes.
    pub fn encode(&self) -> (r: &[u8])
        ensures
            r@ == self.data@,
    {
        self.data.as_slice()
    }

    /// Reads a block from its bytes. Only the header and the vertex offsets are checked:
    /// entries are decoded when an iterator reaches them.
    pub fn decode(data: Vec<u8>) -> (r: Result<Block, BlockError>)
        ensures
            r is Ok <==> decodable(data@),
            r matches Ok(b) ==> b.wf() && b.data@ == data@,
            r matches Err(e) ==> e == (if data@.len() < 4 {
                BlockError::MissingHeader
            } else if data@.len() < 4 + 8 * blk_vc(data@) + 4 * blk_ec(data@) {
                BlockError::Truncated
            } else {
                BlockError::BadOffsets
            }),
    {
        if data.len() < HEADER_SIZE {
            return Err(BlockError::MissingHeader);
        }
        let vertex_count = read_be16(data.as_slice(), 0);
        let edge_count = read_be16(data.as_slice(), 2);
        let vertex_list_size = (vertex_count as usize) * 8;
        let edge_list_size = (edge_count as usize) * 4;
        if data.len() < HEADER_SIZE + vertex_list_size + edge_list_size {
            return Err(BlockError::Truncated);
        }
        let ghost vl = blk_vertices(data@);
        let mut prev: u32 = 0;
        let mut i: usize = 0;
        while i < vertex_count as usize
            invariant
                vl == blk_vertices(data@),
                vl.len() == vertex_count,
                blk_vc(data@) == vertex_count,
                blk_ec(data@) == edge_count,
                data@.len() >= 4 + 8 * vertex_count + 4 * edge_count,
                i <= vertex_count,
                i > 0 ==> prev == vl[i - 1].1,
                forall|a: int, b: int| 0 <= a <= b < i ==> vl[a].1 <= vl[b].1,
                forall|a: int| 0 <= a < i ==> vl[a].1 <= edge_count,
            decreases vertex_count - i,
        {
            let offset = read_be32(data.as_slice(), 8 + 8 * i);
            assert(vl[i as int].1 == offset);
            if offset as usize > edge_count as usize {
                assert(!csr_valid(vl, blk_ec(data@)));
                return Err(BlockError::BadOffsets);
            }
            if i > 0 && offset < prev {
                assert(vl[i - 1].1 > vl[i as int].1);
                assert(!csr_valid(vl, blk_ec(data@)));
                return Err(BlockError::BadOffsets);
            }
            prev = offset;
            i = i + 1;
        }
        Ok(Block {
            vertex_count,
            edge_count,
            vertex_list_view: VertexListView { offset: HEADER_SIZE, len: vertex_list_size },
            edge_list_view: VIdListView { offset: HEADER_SIZE + vertex_list_size, len: edge_list_size },
            data,
        })
    }

    /// An iterator over the vertex table.
    pub fn get_vertex_iter(&self) -> (r: VertexIterator<'_>)
        requires
            self.wf(),
        ensures
            r.wf(),
            r.remaining() == self.vertices(),
    {
        VertexIterator::new(self)
    }

    /// An iterator over the neighbors of the vertex at `vertex_index` in the vertex table,
    /// or `None` when there is no such entry.
    pub fn get_neighbor_iter(&self, vertex_index: usize) -> (r: Option<NeighborIterator<'_>>)
        requires
            self.wf(),
        ensures
            r is Some <==> vertex_index < self.vertex_count,
            r matches Some(it) ==> it.wf() && it.remaining() == self.neighbors(vertex_index as int)
                && it.remaining().len() == csr_end(
                self.vertices(),
                self.edge_count as int,
                vertex_index as int,
            ) - self.vertices()[vertex_index as int].1,
    {
        NeighborIterator::new(self, vertex_index)
    }

    /// An iterator over all edges, vertex by vertex.
    pub fn get_edge_iter(&self) -> (r: BlockEdgeIterator<'_>)
        requires
            self.wf(),
        ensures
            r.wf(),
            r.remaining() == self.edge_pairs(),
    {
        BlockEdgeIterator::new(self)
    }

    /// The vertex id of the entry at `index` in the vertex table.
    pub fn get_vertex_id_at_index(&self, index: usize) -> (r: VId)
        requires
            self.wf(),
            index < self.vertex_count,
        ensures
            r == self.vertices()[index as int].0,
    {
        read_be32(self.data.as_slice(), 4 + index * 8)
    }

    /// The neighbors of the vertex at `vertex_index`, copied out, or `None` when there is
    /// no such entry.
    pub fn get_neighbor_clone(&self, vertex_index: usize) -> (r: Option<VIdList>)
        requires
            self.wf(),
        ensures
            r is Some <==> vertex_index < self.vertex_count,
            r matches Some(v) ==> v@ == self.neighbors(vertex_index as int),
    {
        match self.get_neighbor_iter(vertex_index) {
            Some(it) => Some(it.to_vec()),
            None => None,
        }
    }
}

/// Decoding the bytes of a block built from a vertex table and an edge list gives back
/// that vertex table and that edge list, and so the same neighbors and edges.
pub proof fn lemma_block_round_trip(d: Seq<u8>, vl: Seq<(u32, u32)>, el: Seq<u32>)
    requires
        block_layout(d, vl, el),
        csr_valid(vl, el.len() as int),
    ensures
        decodable(d),
        blk_vertices(d) == vl,
        blk_edges(d) == el,
{
    assert(blk_vertices(d) =~= vl);
    assert(blk_edges(d) =~= el);
}

/// The neighbors of a vertex are the slice of the edge list between its offset and the
/// next vertex's offset (the edge count for the last vertex).
pub proof fn lemma_csr_slice_len(vl: Seq<(u32, u32)>, el: Seq<u32>, i: int)
    requires
        csr_valid(vl, el.len() as int),
        0 <= i < vl.len(),
    ensures
        csr_neighbors(vl, el, i).len() == csr_end(vl, el.len() as int, i) - vl[i].1,
        csr_neighbors(vl, el, i) == el.subrange(vl[i].1 as int, csr_end(vl, el.len() as int, i)),
{
}

} // verus!
