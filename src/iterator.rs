use vstd::prelude::*;

use crate::block::Block;
use crate::codec::read_be32;
use crate::types::{VId, VIdList};
use std::sync::Arc;

verus! {

/// Walks a vertex's neighbors: first those held in memory, then the slice of a block's
/// edge list that belongs to the vertex.
pub struct GlobalNeighborIterator {
    pub mem_neighbors: Vec<VId>,
    pub mem_index: usize,
    pub block_arc: Option<Arc<Block>>,
    /// Current and end position in the block's edge list.
    pub block_iter_state: Option<(usize, usize)>,
}

impl GlobalNeighborIterator {
    pub open spec fn wf(&self) -> bool {
        &&& self.mem_index <= self.mem_neighbors@.len()
        &&& self.mem_neighbors@.len() + 0xffff <= usize::MAX
        &&& (self.block_iter_state is Some ==> self.block_arc is Some)
        &&& (self.block_arc matches Some(b) ==> b.wf())
        &&& (self.block_iter_state matches Some((cur, end)) ==> cur <= end && end <= self.block_arc.unwrap().edge_count)
    }

    /// The neighbors still to come.
    pub open spec fn remaining(&self) -> Seq<VId> {
        self.mem_neighbors@.subrange(self.mem_index as int, self.mem_neighbors@.len() as int) + match self.block_iter_state {
            Some((cur, end)) => self.block_arc.unwrap().edges().subrange(cur as int, end as int),
            None => Seq::empty(),
        }
    }

    /// The in-memory neighbors, then those of the vertex at `vertex_offset` in `block`
    /// (none when there is no block, no offset, or no such entry).
    pub fn new(mem_neighbors: Vec<VId>, block_arc: Option<Arc<Block>>, vertex_offset: Option<usize>) -> (r: Self)
        requires
            block_arc matches Some(b) ==> b.wf(),
            mem_neighbors@.len() + 0xffff <= usize::MAX,
        ensures
            r.wf(),
            r.remaining() == mem_neighbors@ + match (block_arc, vertex_offset) {
                (Some(b), Some(i)) => if i < b.vertex_count {
                    b.neighbors(i as int)
                } else {
                    Seq::empty()
                },
                _ => Seq::empty(),
            },
    {
        let state = match (&block_arc, vertex_offset) {
            (Some(block), Some(offset)) => {
                let b: &Block = &**block;
                if offset < b.vertex_count as usize {
                    let pos = 4 + offset * 8;
                    let start_index = read_be32(b.data.as_slice(), pos + 4) as usize;
                    let end_index = if offset + 1 < b.vertex_count as usize {
                        read_be32(b.data.as_slice(), pos + 12) as usize
                    } else {
                        b.edge_count as usize
                    };
                    proof {
                        let vl = b.vertices();
                        assert(vl[offset as int].1 == start_index);
                        if offset + 1 < b.vertex_count {
                            assert(vl[offset + 1].1 == end_index);
                        }
                    }
                    Some((start_index, end_index))
                } else {
                    None
                }
            },
            _ => None,
        };
        let r = GlobalNeighborIterator { mem_neighbors, mem_index: 0, block_arc, block_iter_state: state };
        assert(r.mem_neighbors@.subrange(0, r.mem_neighbors@.len() as int) =~= r.mem_neighbors@);
        assert(r.remaining() =~= r.mem_neighbors@ + match (r.block_arc, vertex_offset) {
            (Some(b), Some(i)) => if i < b.vertex_count {
                b.neighbors(i as int)
            } else {
                Seq::empty()
            },
            _ => Seq::empty(),
        });
        r
    }

    /// The next neighbor, or `None` at the end.
    pub fn next(&mut self) -> (r: Option<VId>)
        requires
            old(self).wf(),
        ensures
            final(self).wf(),
            old(self).remaining().len() == 0 ==> r is None && final(self).remaining().len() == 0,
            old(self).remaining().len() > 0 ==> r == Some(old(self).remaining()[0])
                && final(self).remaining() == old(self).remaining().drop_first(),
    {
        let ghost before = self.remaining();
        if self.mem_index < self.mem_neighbors.len() {
            let v = self.mem_neighbors[self.mem_index];
            self.mem_index = self.mem_index + 1;
            assert(self.remaining() =~= before.drop_first());
            return Some(v);
        }
        match (&self.block_arc, self.block_iter_state) {
            (Some(block), Some((cur, end))) => {
                if cur < end {
                    let b: &Block = &**block;
                    let vid = read_be32(b.data.as_slice(), 4 + 8 * (b.vertex_count as usize) + 4 * cur);
                    self.block_iter_state = Some((cur + 1, end));
                    assert(self.remaining() =~= before.drop_first());
                    Some(vid)
                } else {
                    assert(before.len() == 0);
                    None
                }
            },
            _ => {
                assert(before.len() == 0);
                None
            },
        }
    }

    /// How many neighbors are still to come.
    pub fn len(&self) -> (r: usize)
        requires
            self.wf(),
        ensures
            r == self.remaining().len(),
    {
        let block_part = match self.block_iter_state {
            Some((cur, end)) => end - cur,
            None => 0,
        };
        (self.mem_neighbors.len() - self.mem_index) + block_part
    }
}

/// A vertex's neighbors: from a block (a normal vertex) or from a list held apart (a giant
/// vertex).
pub enum UnifiedNeighborIterator {
    Internal(GlobalNeighborIterator),
    External { neighbors: Arc<VIdList>, index: usize },
}

impl UnifiedNeighborIterator {
    pub open spec fn wf(&self) -> bool {
        match self {
            UnifiedNeighborIterator::Internal(it) => it.wf(),
            UnifiedNeighborIterator::External { neighbors, index } => *index <= neighbors@.len(),
        }
    }

    /// The neighbors still to come.
    pub open spec fn remaining(&self) -> Seq<VId> {
        match self {
            UnifiedNeighborIterator::Internal(it) => it.remaining(),
            UnifiedNeighborIterator::External { neighbors, index } => neighbors@.subrange(*index as int, neighbors@.len() as int),
        }
    }

    pub fn from_internal(iter: GlobalNeighborIterator) -> (r: Self)
        requires
            iter.wf(),
        ensures
            r.wf(),
            r.remaining() == iter.remaining(),
    {
        UnifiedNeighborIterator::Internal(iter)
    }

    pub fn from_external(neighbors: Arc<VIdList>) -> (r: Self)
        ensures
            r.wf(),
            r.remaining() == neighbors@,
    {
        let r = UnifiedNeighborIterator::External { neighbors, index: 0 };
        assert(r.remaining() =~= neighbors@);
        r
    }

    /// The next neighbor, or `None` at the end.
    pub fn next(&mut self) -> (r: Option<VId>)
        requires
            old(self).wf(),
        ensures
            final(self).wf(),
            old(self).remaining().len() == 0 ==> r is None && final(self).remaining().len() == 0,
            old(self).remaining().len() > 0 ==> r == Some(old(self).remaining()[0])
                && final(self).remaining() == old(self).remaining().drop_first(),
    {
        match self {
            UnifiedNeighborIterator::Internal(it) => it.next(),
            UnifiedNeighborIterator::External { neighbors, index } => {
                let ghost before = neighbors@.subrange(*index as int, neighbors@.len() as int);
                if *index < neighbors.len() {
                    let v = neighbors[*index];
                    *index = *index + 1;
                    assert(neighbors@.subrange(*index as int, neighbors@.len() as int) =~= before.drop_first());
                    Some(v)
                } else {
                    None
                }
            },
        }
    }

    /// How many neighbors are still to come.
    pub fn len(&self) -> (r: usize)
        requires
            self.wf(),
        ensures
            r == self.remaining().len(),
    {
        match self {
            UnifiedNeighborIterator::Internal(it) => it.len(),
            UnifiedNeighborIterator::External { neighbors, index } => neighbors.len() - *index,
        }
    }

    /// The neighbors still to come, in order.
    pub fn to_vec(self) -> (r: Vec<VId>)
        requires
            self.wf(),
        ensures
            r@ == self.remaining(),
    {
        let mut it = self;
        let mut out: Vec<VId> = Vec::new();
        while it.len() > 0
            invariant
                it.wf(),
                out@ + it.remaining() == self.remaining(),
            decreases it.remaining().len(),
        {
            let x = it.next();
            out.push(x.unwrap());
            assert(out@ + it.remaining() =~= self.remaining());
        }
        assert(out@ =~= self.remaining());
        out
    }
}

} // verus!
