use vstd::prelude::*;

use super::{csr_edges_from, csr_end, lemma_edges_from_len, pairs_of, Block};
use crate::codec::read_be32;
use crate::types::{Offset, VId};

verus! {

/// Walks a block's vertex table, decoding each entry from the bytes when it is reached.
pub struct VertexIterator<'a> {
    pub block: &'a Block,
    pub current_index: usize,
    pub total_count: usize,
}

impl<'a> VertexIterator<'a> {
    pub open spec fn wf(&self) -> bool {
        &&& self.block.wf()
        &&& self.total_count == self.block.vertex_count
        &&& self.current_index <= self.total_count
    }

    /// The entries still to come.
    pub open spec fn remaining(&self) -> Seq<(VId, Offset)> {
        self.block.vertices().subrange(self.current_index as int, self.total_count as int)
    }

    pub fn new(block: &'a Block) -> (r: Self)
        requires
            block.wf(),
        ensures
            r.wf(),
            r.block == block,
            r.remaining() == block.vertices(),
    {
        let r = VertexIterator { block, current_index: 0, total_count: block.vertex_count as usize };
        assert(r.remaining() =~= block.vertices());
        r
    }

    /// The next entry, or `None` once all have been handed out.
    pub fn next(&mut self) -> (r: Option<(VId, Offset)>)
        requires
            old(self).wf(),
        ensures
            final(self).wf(),
            final(self).block == old(self).block,
            old(self).remaining().len() == 0 ==> r is None && final(self).remaining() == old(
                self,
            ).remaining(),
            old(self).remaining().len() > 0 ==> r == Some(old(self).remaining()[0])
                && final(self).remaining() == old(self).remaining().drop_first(),
    {
        if self.current_index >= self.total_count {
            return None;
        }
        let pos = 4 + self.current_index * 8;
        let data = self.block.data.as_slice();
        let vid = read_be32(data, pos);
        let offset = read_be32(data, pos + 4);
        let ghost before = self.remaining();
        self.current_index = self.current_index + 1;
        assert(self.remaining() =~= before.drop_first());
        Some((vid, offset))
    }

    /// How many entries are still to come.
    pub fn len(&self) -> (r: usize)
        requires
            self.wf(),
        ensures
            r == self.remaining().len(),
    {
        self.total_count - self.current_index
    }

    /// The entries still to come, in order.
    pub fn to_vec(self) -> (r: Vec<(VId, Offset)>)
        requires
            self.wf(),
        ensures
            r@ == self.remaining(),
    {
        let mut it = self;
        let mut out: Vec<(VId, Offset)> = Vec::new();
        while it.current_index < it.total_count
            invariant
                it.wf(),
                it.block == self.block,
                out@ + it.remaining() == self.remaining(),
            decreases it.total_count - it.current_index,
        {
            let ghost rest = it.remaining();
            let x = it.next();
            out.push(x.unwrap());
            assert(out@ + it.remaining() =~= self.remaining());
        }
        assert(out@ =~= self.remaining());
        out
    }
}

/// Walks a block's whole edge list.
pub struct VIdIterator<'a> {
    pub block: &'a Block,
    pub current_index: usize,
    pub total_count: usize,
}

impl<'a> VIdIterator<'a> {
    pub open spec fn wf(&self) -> bool {
        &&& self.block.wf()
        &&& self.total_count == self.block.edge_count
        &&& self.current_index <= self.total_count
    }

    /// The edges still to come.
    pub open spec fn remaining(&self) -> Seq<VId> {
        self.block.edges().subrange(self.current_index as int, self.total_count as int)
    }

    pub fn new(block: &'a Block) -> (r: Self)
        requires
            block.wf(),
        ensures
            r.wf(),
            r.block == block,
            r.remaining() == block.edges(),
    {
        let r = VIdIterator { block, current_index: 0, total_count: block.edge_count as usize };
        assert(r.remaining() =~= block.edges());
        r
    }

    /// The next destination, or `None` at the end.
    pub fn next(&mut self) -> (r: Option<VId>)
        requires
            old(self).wf(),
        ensures
            final(self).wf(),
            final(self).block == old(self).block,
            old(self).remaining().len() == 0 ==> r is None && final(self).remaining() == old(
                self,
            ).remaining(),
            old(self).remaining().len() > 0 ==> r == Some(old(self).remaining()[0])
                && final(self).remaining() == old(self).remaining().drop_first(),
    {
        if self.current_index >= self.total_count {
            return None;
        }
        let pos = 4 + 8 * (self.block.vertex_count as usize) + 4 * self.current_index;
        let vid = read_be32(self.block.data.as_slice(), pos);
        let ghost before = self.remaining();
        self.current_index = self.current_index + 1;
        assert(self.remaining() =~= before.drop_first());
        Some(vid)
    }

    /// How many edges are still to come.
    pub fn len(&self) -> (r: usize)
        requires
            self.wf(),
        ensures
            r == self.remaining().len(),
    {
        self.total_count - self.current_index
    }
}

/// Walks the neighbors of one vertex: a slice of the block's edge list.
pub struct NeighborIterator<'a> {
    pub block: &'a Block,
    pub current_index: usize,
    pub end_index: usize,
}

impl<'a> NeighborIterator<'a> {
    pub open spec fn wf(&self) -> bool {
        &&& self.block.wf()
        &&& self.current_index <= self.end_index <= self.block.edge_count
    }

    /// The neighbors still to come.
    pub open spec fn remaining(&self) -> Seq<VId> {
        self.block.edges().subrange(self.current_index as int, self.end_index as int)
    }

    /// The neighbors of the vertex at `vertex_index` in the vertex table, or `None` when
    /// there is no such entry.
    pub fn new(block: &'a Block, vertex_index: usize) -> (r: Option<Self>)
        requires
            block.wf(),
        ensures
            r is Some <==> vertex_index < block.vertex_count,
            r matches Some(it) ==> {
                &&& it.wf()
                &&& it.block == block
                &&& it.remaining() == block.neighbors(vertex_index as int)
                &&& it.current_index == block.vertices()[vertex_index as int].1
                &&& it.end_index == csr_end(block.vertices(), block.edge_count as int, vertex_index as int)
            },
    {
        if vertex_index >= block.vertex_count as usize {
            return None;
        }
        let data = block.data.as_slice();
        let vertex_offset = 4 + vertex_index * 8;
        let start_index = read_be32(data, vertex_offset + 4) as usize;
        let end_index = if vertex_index + 1 < block.vertex_count as usize {
            read_be32(data, vertex_offset + 12) as usize
        } else {
            block.edge_count as usize
        };
        proof {
            let vl = block.vertices();
            assert(vl[vertex_index as int].1 == start_index);
            if vertex_index + 1 < block.vertex_count {
                assert(vl[vertex_index + 1].1 == end_index);
            }
        }
        Some(NeighborIterator { block, current_index: start_index, end_index })
    }

    /// The next neighbor, or `None` at the end.
    pub fn next(&mut self) -> (r: Option<VId>)
        requires
            old(self).wf(),
        ensures
            final(self).wf(),
            final(self).block == old(self).block,
            final(self).end_index == old(self).end_index,
            old(self).remaining().len() == 0 ==> r is None && final(self).remaining() == old(
                self,
            ).remaining(),
            old(self).remaining().len() > 0 ==> r == Some(old(self).remaining()[0])
                && final(self).remaining() == old(self).remaining().drop_first(),
    {
        if self.current_index >= self.end_index {
            return None;
        }
        let pos = 4 + 8 * (self.block.vertex_count as usize) + 4 * self.current_index;
        let vid = read_be32(self.block.data.as_slice(), pos);
        let ghost before = self.remaining();
        self.current_index = self.current_index + 1;
        assert(self.remaining() =~= before.drop_first());
        Some(vid)
    }

    /// How many neighbors are still to come.
    pub fn len(&self) -> (r: usize)
        requires
            self.wf(),
        ensures
            r == self.remaining().len(),
    {
        self.end_index - self.current_index
    }

    /// The neighbors still to come, in order.
    pub fn to_vec(self) -> (r: Vec<VId>)
        requires
            self.wf(),
        ensures
            r@ == self.remaining(),
    {
        let mut it = self;
        let mut out: Vec<VId> = Vec::new();
        while it.current_index < it.end_index
            invariant
                it.wf(),
                it.block == self.block,
                out@ + it.remaining() == self.remaining(),
            decreases it.end_index - it.current_index,
        {
            let x = it.next();
            out.push(x.unwrap());
            assert(out@ + it.remaining() =~= self.remaining());
        }
        assert(out@ =~= self.remaining());
        out
    }
}

/// Walks all edges `(source, destination)` of a block, vertex by vertex.
pub struct BlockEdgeIterator<'a> {
    pub block: &'a Block,
    pub current_vertex_index: usize,
    pub current_vertex_id: VId,
    pub current_index: usize,
    pub end_index: usize,
}

impl<'a> BlockEdgeIterator<'a> {
    pub open spec fn wf(&self) -> bool {
        &&& self.block.wf()
        &&& self.current_vertex_index <= self.block.vertex_count
        &&& self.current_vertex_index < self.block.vertex_count ==> {
            &&& self.current_vertex_id == self.block.vertices()[self.current_vertex_index as int].0
            &&& self.block.vertices()[self.current_vertex_index as int].1 <= self.current_index
            &&& self.current_index <= self.end_index
            &&& self.end_index == csr_end(
                self.block.vertices(),
                self.block.edge_count as int,
                self.current_vertex_index as int,
            )
        }
    }

    /// The edges still to come.
    pub open spec fn remaining(&self) -> Seq<(VId, VId)> {
        if self.current_vertex_index < self.block.vertex_count {
            pairs_of(
                self.current_vertex_id,
                self.block.edges().subrange(self.current_index as int, self.end_index as int),
            ) + csr_edges_from(
                self.block.vertices(),
                self.block.edges(),
                self.current_vertex_index + 1,
            )
        } else {
            Seq::empty()
        }
    }

    pub fn new(block: &'a Block) -> (r: Self)
        requires
            block.wf(),
        ensures
            r.wf(),
            r.block == block,
            r.remaining() == block.edge_pairs(),
    {
        let mut it = BlockEdgeIterator {
            block,
            current_vertex_index: 0,
            current_vertex_id: 0,
            current_index: 0,
            end_index: 0,
        };
        if block.vertex_count > 0 {
            it.advance_to_next_vertex();
        }
        it
    }

    /// The vertex identifier at `index` in the vertex table.
    fn get_vertex_id_at_index(&self, index: usize) -> (r: VId)
        requires
            self.block.wf(),
            index < self.block.vertex_count,
        ensures
            r == self.block.vertices()[index as int].0,
    {
        read_be32(self.block.data.as_slice(), 4 + index * 8)
    }

    /// Positions the iterator at the start of the current vertex's neighbors.
    fn advance_to_next_vertex(&mut self)
        requires
            old(self).block.wf(),
            old(self).current_vertex_index < old(self).block.vertex_count,
        ensures
            final(self).wf(),
            final(self).block == old(self).block,
            final(self).current_vertex_index == old(self).current_vertex_index,
            final(self).remaining() == csr_edges_from(
                old(self).block.vertices(),
                old(self).block.edges(),
                old(self).current_vertex_index as int,
            ),
    {
        let vid = self.get_vertex_id_at_index(self.current_vertex_index);
        let it = NeighborIterator::new(self.block, self.current_vertex_index);
        let it = it.unwrap();
        self.current_vertex_id = vid;
        self.current_index = it.current_index;
        self.end_index = it.end_index;
    }

    /// The next edge, or `None` at the end.
    pub fn next(&mut self) -> (r: Option<(VId, VId)>)
        requires
            old(self).wf(),
        ensures
            final(self).wf(),
            final(self).block == old(self).block,
            old(self).remaining().len() == 0 ==> r is None && final(self).remaining().len() == 0,
            old(self).remaining().len() > 0 ==> r == Some(old(self).remaining()[0])
                && final(self).remaining() == old(self).remaining().drop_first(),
    {
        let ghost start = self.remaining();
        loop
            invariant
                self.wf(),
                self.block == old(self).block,
                self.remaining() == start,
                start == old(self).remaining(),
            decreases self.block.vertex_count - self.current_vertex_index,
        {
            if self.current_vertex_index >= self.block.vertex_count as usize {
                assert(start.len() == 0);
                return None;
            }
            if self.current_index < self.end_index {
                let pos = 4 + 8 * (self.block.vertex_count as usize) + 4 * self.current_index;
                let dst = read_be32(self.block.data.as_slice(), pos);
                let ghost before = self.block.edges().subrange(
                    self.current_index as int,
                    self.end_index as int,
                );
                self.current_index = self.current_index + 1;
                proof {
                    let after = self.block.edges().subrange(
                        self.current_index as int,
                        self.end_index as int,
                    );
                    assert(after =~= before.drop_first());
                    assert(pairs_of(self.current_vertex_id, after) =~= pairs_of(
                        self.current_vertex_id,
                        before,
                    ).drop_first());
                    assert(before[0] == dst);
                    assert(pairs_of(self.current_vertex_id, before)[0] == (
                        self.current_vertex_id,
                        dst,
                    ));
                    assert(start[0] == (self.current_vertex_id, dst));
                    assert(self.remaining() =~= start.drop_first());
                }
                return Some((self.current_vertex_id, dst));
            }
            proof {
                let e = self.block.edges().subrange(self.current_index as int, self.end_index as int);
                assert(e =~= Seq::<VId>::empty());
                assert(pairs_of(self.current_vertex_id, e) =~= Seq::<(VId, VId)>::empty());
                assert(start =~= csr_edges_from(
                    self.block.vertices(),
                    self.block.edges(),
                    self.current_vertex_index + 1,
                ));
            }
            self.current_vertex_index = self.current_vertex_index + 1;
            if self.current_vertex_index < self.block.vertex_count as usize {
                self.advance_to_next_vertex();
            }
            assert(self.remaining() =~= start);
        }
    }

    /// How many edges are still to come.
    pub fn len(&self) -> (r: usize)
        requires
            self.wf(),
        ensures
            r == self.remaining().len(),
    {
        if self.current_vertex_index >= self.block.vertex_count as usize {
            0
        } else {
            proof {
                let vl = self.block.vertices();
                let el = self.block.edges();
                let i = self.current_vertex_index as int;
                if i + 1 < vl.len() {
                    lemma_edges_from_len(vl, el, i + 1);
                }
            }
            (self.end_index - self.current_index) + (self.block.edge_count as usize
                - self.end_index)
        }
    }

    /// The edges still to come, in order.
    pub fn to_vec(self) -> (r: Vec<(VId, VId)>)
        requires
            self.wf(),
        ensures
            r@ == self.remaining(),
    {
        let mut it = self;
        let mut out: Vec<(VId, VId)> = Vec::new();
        while it.len() > 0
            invariant
                it.wf(),
                it.block == self.block,
                out@ + it.remaining() == self.remaining(),
            decreases it.remaining().len(),
        {
            let x = it.next();
            out.push(x.unwrap());
            assert(out@ + it.remaining() =~= self.remaining());
        }
        assert(out@ =~= self.remaining());
        out
    }
}

} // verus!
