use vstd::prelude::*;

use crate::block::{blk_edges, blk_vc, blk_vertices, csr_neighbors, decodable, Block, BlockError};
use crate::bloom::{edge_hash, edge_key_hash, filter_has, Bloom};
use crate::codec::{be16_at, be16_bytes, be32_at, be32_bytes, push_be16, push_be32, read_be16, read_be32, lemma_be16_round_trip, lemma_be32_round_trip};
use crate::types::{PageId, VId, VirtualCommId};

pub mod builder;

verus! {

/// Size of a bucket's footer: block size, vertex-meta offset, bloom size.
pub const FOOTER_SIZE: usize = 12;

/// Size of one entry of the vertex-meta table.
pub const META_SIZE: usize = 10;

/// Where a vertex lives inside a bucket.
#[derive(Debug, Clone, Copy, PartialEq, Eq, Structural)]
pub struct VertexMeta {
    pub vertex_id: VId,
    pub page_id: PageId,
    /// Position of the vertex in its block's vertex table.
    pub offset_inner: u16,
}

/// Why a bucket's bytes cannot be read.
#[derive(Debug, Clone, Copy, PartialEq, Eq, Structural)]
pub enum BucketError {
    /// Fewer bytes than a footer.
    MissingFooter,
    /// A footer whose regions do not fit in the bucket, or a zero block size.
    BadFooter,
    /// A vertex-meta table shorter than its count announces.
    TruncatedMetas,
    /// A page at or past the vertex-meta table.
    PageOutOfRange,
    /// A page whose bytes are not a block.
    BadBlock(BlockError),
    /// No vertex-meta entry for a vertex.
    UnknownVertex,
    /// More bytes, pages or vertices than the format's 32-bit fields can count.
    TooLarge,
}

/// The ten big-endian bytes of a vertex-meta entry.
pub open spec fn meta_bytes(m: VertexMeta) -> Seq<u8> {
    be32_bytes(m.vertex_id) + be32_bytes(m.page_id) + be16_bytes(m.offset_inner)
}

/// The entries one after the other.
pub open spec fn metas_body(ms: Seq<VertexMeta>) -> Seq<u8>
    decreases ms.len(),
{
    if ms.len() == 0 {
        Seq::empty()
    } else {
        metas_body(ms.drop_last()) + meta_bytes(ms.last())
    }
}

/// The bytes of a vertex-meta table: the count, then the entries.
pub open spec fn metas_bytes(ms: Seq<VertexMeta>) -> Seq<u8> {
    be32_bytes(ms.len() as u32) + metas_body(ms)
}

/// The entry that bytes hold at `pos`.
pub open spec fn meta_at(b: Seq<u8>, pos: int) -> VertexMeta {
    VertexMeta {
        vertex_id: be32_at(b, pos) as u32,
        page_id: be32_at(b, pos + 4) as u32,
        offset_inner: be16_at(b, pos + 8) as u16,
    }
}

/// The count a vertex-meta table announces.
pub open spec fn meta_count(b: Seq<u8>) -> int {
    be32_at(b, 0)
}

/// Whether bytes hold a whole vertex-meta table (bytes after it are ignored).
pub open spec fn metas_decodable(b: Seq<u8>) -> bool {
    b.len() >= 4 && b.len() >= 4 + 10 * meta_count(b)
}

/// The entries of a vertex-meta table.
pub open spec fn metas_of(b: Seq<u8>) -> Seq<VertexMeta> {
    Seq::new(meta_count(b) as nat, |i: int| meta_at(b, 4 + 10 * i))
}

pub proof fn lemma_metas_body(ms: Seq<VertexMeta>)
    ensures
        metas_body(ms).len() == 10 * ms.len(),
        forall|i: int| 0 <= i < ms.len() ==> #[trigger] meta_at(metas_body(ms), 10 * i) == ms[i],
    decreases ms.len(),
{
    if ms.len() > 0 {
        let init = ms.drop_last();
        lemma_metas_body(init);
        let m = ms.last();
        lemma_be32_round_trip(m.vertex_id);
        lemma_be32_round_trip(m.page_id);
        lemma_be16_round_trip(m.offset_inner);
        let b = metas_body(ms);
        assert forall|i: int| 0 <= i < ms.len() implies #[trigger] meta_at(b, 10 * i) == ms[i] by {
            if i < ms.len() - 1 {
                assert(meta_at(b, 10 * i) == meta_at(metas_body(init), 10 * i));
                assert(init[i] == ms[i]);
            } else {
                assert(b.subrange(10 * i, 10 * i + 10) =~= meta_bytes(m));
            }
        }
    }
}

/// Decoding the bytes of a vertex-meta table gives its entries back.
pub proof fn lemma_metas_round_trip(ms: Seq<VertexMeta>, rest: Seq<u8>)
    requires
        ms.len() <= u32::MAX,
    ensures
        metas_decodable(metas_bytes(ms) + rest),
        metas_of(metas_bytes(ms) + rest) == ms,
{
    lemma_metas_body(ms);
    lemma_be32_round_trip(ms.len() as u32);
    let b = metas_bytes(ms) + rest;
    assert forall|i: int| 0 <= i < ms.len() implies #[trigger] metas_of(b)[i] == ms[i] by {
        assert(meta_at(b, 4 + 10 * i) == meta_at(metas_body(ms), 10 * i));
    }
    assert(metas_of(b) =~= ms);
}

impl VertexMeta {
    /// Appends the vertex-meta table of `vertex_meta`.
    pub fn encode(vertex_meta: &[VertexMeta], buf: &mut Vec<u8>)
        requires
            vertex_meta@.len() <= u32::MAX,
        ensures
            final(buf)@ == old(buf)@ + metas_bytes(vertex_meta@),
    {
        push_be32(buf, vertex_meta.len() as u32);
        let ghost start = buf@;
        let mut i: usize = 0;
        while i < vertex_meta.len()
            invariant
                i <= vertex_meta@.len(),
                buf@ == start + metas_body(vertex_meta@.subrange(0, i as int)),
            decreases vertex_meta@.len() - i,
        {
            let m = vertex_meta[i];
            push_be32(buf, m.vertex_id);
            push_be32(buf, m.page_id);
            push_be16(buf, m.offset_inner);
            proof {
                let s = vertex_meta@.subrange(0, i + 1);
                assert(s.drop_last() =~= vertex_meta@.subrange(0, i as int));
                assert(s.last() == m);
                assert(buf@ =~= start + metas_body(s));
            }
            i = i + 1;
        }
        assert(vertex_meta@.subrange(0, vertex_meta@.len() as int) =~= vertex_meta@);
        assert(final(buf)@ =~= old(buf)@ + metas_bytes(vertex_meta@));
    }

    /// Reads a vertex-meta table.
    pub fn decode(buf: &[u8]) -> (r: Result<Vec<VertexMeta>, BucketError>)
        ensures
            r is Ok <==> metas_decodable(buf@),
            r matches Ok(ms) ==> ms@ == metas_of(buf@),
            r is Err ==> r == Err::<Vec<VertexMeta>, BucketError>(BucketError::TruncatedMetas),
    {
        if buf.len() < 4 {
            return Err(BucketError::TruncatedMetas);
        }
        let num = read_be32(buf, 0) as usize;
        if (buf.len() - 4) / META_SIZE < num {
            return Err(BucketError::TruncatedMetas);
        }
        let mut vertex_meta: Vec<VertexMeta> = Vec::new();
        let mut i: usize = 0;
        let mut pos: usize = 4;
        let n = buf.len();
        while i < num
            invariant
                num == meta_count(buf@),
                n == buf@.len(),
                4 + 10 * num <= n,
                i <= num,
                pos == 4 + 10 * i,
                vertex_meta@ == metas_of(buf@).subrange(0, i as int),
            decreases num - i,
        {
            let vertex_id = read_be32(buf, pos);
            let page_id = read_be32(buf, pos + 4);
            let offset_inner = read_be16(buf, pos + 8);
            vertex_meta.push(VertexMeta { vertex_id, page_id, offset_inner });
            assert(vertex_meta@ =~= metas_of(buf@).subrange(0, i + 1));
            i = i + 1;
            pos = pos + META_SIZE;
        }
        assert(vertex_meta@ =~= metas_of(buf@));
        Ok(vertex_meta)
    }
}

/// The block size a bucket's footer holds.
pub open spec fn footer_block_size(b: Seq<u8>) -> int {
    be32_at(b, b.len() - 12)
}

/// The vertex-meta offset a bucket's footer holds.
pub open spec fn footer_meta_offset(b: Seq<u8>) -> int {
    be32_at(b, b.len() - 8)
}

/// The bloom size a bucket's footer holds.
pub open spec fn footer_bloom_size(b: Seq<u8>) -> int {
    be32_at(b, b.len() - 4)
}

/// Whether a bucket's footer describes regions that fit: blocks, then vertex metas, then
/// the bloom, then the footer.
pub open spec fn footer_ok(b: Seq<u8>) -> bool {
    &&& b.len() >= 12
    &&& footer_block_size(b) > 0
    &&& footer_bloom_size(b) <= b.len() - 12
    &&& footer_meta_offset(b) <= b.len() - 12 - footer_bloom_size(b)
}

/// The bloom region of a bucket: the filter bytes, then the number of probes.
pub open spec fn bloom_region(b: Seq<u8>) -> Seq<u8> {
    b.subrange(b.len() - 12 - footer_bloom_size(b), b.len() - 12)
}

/// Whether the bloom bytes `region` report the key hash `h` as possibly present.
pub open spec fn bloom_admits(region: Seq<u8>, h: u32) -> bool {
    region.len() >= 2 && crate::bloom::filter_has(region.subrange(0, region.len() - 1), region[region.len() - 1] as int, h)
}

/// The vertex-meta region of a bucket.
pub open spec fn meta_region(b: Seq<u8>) -> Seq<u8> {
    b.subrange(footer_meta_offset(b), b.len() - 12 - footer_bloom_size(b))
}

/// The bytes of page `p` of a bucket whose blocks end at `meta_offset`.
pub open spec fn page_bytes(b: Seq<u8>, p: int, block_size: int, meta_offset: int) -> Seq<u8> {
    b.subrange(p * block_size, if p * block_size + block_size <= meta_offset {
        p * block_size + block_size
    } else {
        meta_offset
    })
}

/// A bucket: the blocks of one virtual community, its vertex-meta table, and its bloom.
pub struct Bucket {
    /// The bucket's bytes, as stored.
    pub data: Vec<u8>,
    pub vertex_metas: Vec<VertexMeta>,
    pub vertex_meta_offset: usize,
    pub edge_bloom_length: usize,
    pub block_size: usize,
    pub virtual_comm_id: VirtualCommId,
    /// The edge bloom filter, when the bucket holds one.
    pub edge_bloom: Option<Bloom>,
}

impl Bucket {
    pub open spec fn wf(&self) -> bool {
        &&& footer_ok(self.data@)
        &&& self.block_size == footer_block_size(self.data@)
        &&& self.vertex_meta_offset == footer_meta_offset(self.data@)
        &&& self.edge_bloom_length == footer_bloom_size(self.data@)
        &&& self.vertex_metas@ == metas_of(meta_region(self.data@))
        &&& (self.edge_bloom is Some <==> bloom_region(self.data@).len() >= 2)
        &&& (self.edge_bloom matches Some(b) ==> b.filter@ == bloom_region(self.data@).subrange(0, bloom_region(self.data@).len() - 1)
            && b.k == bloom_region(self.data@)[bloom_region(self.data@).len() - 1])
    }

    /// Whether the edge `(src, dst)` may be in the bucket: `false` only when the bloom filter
    /// rules it out, so every edge that went into the bucket answers `true`.
    pub fn contains_edge_maybe(&self, src: VId, dst: VId) -> (r: bool)
        requires
            self.wf(),
        ensures
            bloom_region(self.data@).len() < 2 ==> r,
            bloom_admits(bloom_region(self.data@), edge_hash(src, dst)) ==> r,
            !r ==> !bloom_admits(bloom_region(self.data@), edge_hash(src, dst)),
    {
        match &self.edge_bloom {
            None => true,
            Some(bloom) => {
                if bloom.filter.len() == 0 || bloom.filter.len() > usize::MAX / 8 {
                    return true;
                }
                let h = edge_key_hash(src, dst);
                let r = bloom.may_contain(h);
                proof {
                    let region = bloom_region(self.data@);
                    assert(region.subrange(0, region.len() - 1) == bloom.filter@);
                }
                r
            },
        }
    }

    /// The virtual community the bucket holds.
    pub fn get_vritual_community_id(&self) -> (r: VirtualCommId)
        ensures
            r == self.virtual_comm_id,
    {
        self.virtual_comm_id
    }

    /// The bucket's block size.
    pub fn get_block_size(&self) -> (r: usize)
        ensures
            r == self.block_size,
    {
        self.block_size
    }

    /// Reads a bucket from its bytes: the footer, then the vertex-meta table.
    pub fn open(id: VirtualCommId, data: Vec<u8>) -> (r: Result<Self, BucketError>)
        ensures
            r is Ok <==> footer_ok(data@) && metas_decodable(meta_region(data@)),
            r matches Ok(b) ==> b.wf() && b.data@ == data@ && b.virtual_comm_id == id,
            r matches Err(e) ==> e == (if data@.len() < 12 {
                BucketError::MissingFooter
            } else if !footer_ok(data@) {
                BucketError::BadFooter
            } else {
                BucketError::TruncatedMetas
            }),
    {
        let len = data.len();
        if len < FOOTER_SIZE {
            return Err(BucketError::MissingFooter);
        }
        let block_size = read_be32(data.as_slice(), len - 12) as usize;
        let vertex_meta_offset = read_be32(data.as_slice(), len - 8) as usize;
        let bloom_size = read_be32(data.as_slice(), len - 4) as usize;
        if block_size == 0 || bloom_size > len - 12 || vertex_meta_offset > len - 12 - bloom_size {
            return Err(BucketError::BadFooter);
        }
        let bloom_offset = len - 12 - bloom_size;
        let edge_bloom = Bloom::decode(vstd::slice::slice_subrange(data.as_slice(), bloom_offset, len - 12));
        let region = vstd::slice::slice_subrange(data.as_slice(), vertex_meta_offset, bloom_offset);
        let vertex_metas = match VertexMeta::decode(region) {
            Ok(ms) => ms,
            Err(e) => {
                return Err(e);
            },
        };
        Ok(Bucket {
            data,
            vertex_metas,
            vertex_meta_offset,
            edge_bloom_length: bloom_size,
            block_size,
            virtual_comm_id: id,
            edge_bloom,
        })
    }

    /// The block at `page_id`: `block_size` bytes from `page_id * block_size`, cut at the
    /// vertex-meta table.
    pub fn read_block(&self, page_id: PageId) -> (r: Result<Block, BucketError>)
        requires
            self.wf(),
        ensures
            r is Ok <==> page_id * self.block_size < self.vertex_meta_offset && decodable(
                page_bytes(self.data@, page_id as int, self.block_size as int, self.vertex_meta_offset as int),
            ),
            r matches Ok(b) ==> b.wf() && b.data@ == page_bytes(
                self.data@,
                page_id as int,
                self.block_size as int,
                self.vertex_meta_offset as int,
            ),
            r matches Err(e) ==> (e == BucketError::PageOutOfRange <==> page_id * self.block_size >= self.vertex_meta_offset),
    {
        if page_id as usize > self.vertex_meta_offset / self.block_size {
            proof {
                assert(page_id * self.block_size >= self.vertex_meta_offset) by (nonlinear_arith)
                    requires
                        page_id >= self.vertex_meta_offset / self.block_size + 1,
                        self.block_size > 0,
                ;
            }
            return Err(BucketError::PageOutOfRange);
        }
        proof {
            assert(page_id * self.block_size <= self.vertex_meta_offset) by (nonlinear_arith)
                requires
                    page_id <= self.vertex_meta_offset / self.block_size,
                    self.block_size > 0,
            ;
        }
        let offset = page_id as usize * self.block_size;
        if offset >= self.vertex_meta_offset {
            return Err(BucketError::PageOutOfRange);
        }
        let end = if self.vertex_meta_offset - offset >= self.block_size {
            offset + self.block_size
        } else {
            self.vertex_meta_offset
        };
        let mut bytes: Vec<u8> = Vec::new();
        let mut i: usize = offset;
        while i < end
            invariant
                offset <= i <= end <= self.data@.len(),
                bytes@ == self.data@.subrange(offset as int, i as int),
            decreases end - i,
        {
            bytes.push(self.data[i]);
            assert(bytes@ =~= self.data@.subrange(offset as int, i + 1));
            i = i + 1;
        }
        match Block::decode(bytes) {
            Ok(b) => Ok(b),
            Err(e) => Err(BucketError::BadBlock(e)),
        }
    }

    /// Whether the page that `m` names lies before the vertex-meta table, decodes as a
    /// block, and has an entry at `m`'s offset.
    pub open spec fn meta_readable(&self, m: VertexMeta) -> bool {
        let d = page_bytes(self.data@, m.page_id as int, self.block_size as int, self.vertex_meta_offset as int);
        &&& m.page_id * self.block_size < self.vertex_meta_offset
        &&& decodable(d)
        &&& m.offset_inner < blk_vc(d)
    }

    /// The neighbors of `vertex_id`, found through the first vertex-meta entry that names it.
    pub fn get_neighbors_for_test(&self, vertex_id: VId) -> (r: Result<Vec<VId>, BucketError>)
        requires
            self.wf(),
        ensures
            r matches Ok(ns) ==> exists|j: int| 0 <= j < self.vertex_metas@.len() && #[trigger] self.vertex_metas@[j].vertex_id == vertex_id && {
                let m = self.vertex_metas@[j];
                let d = page_bytes(self.data@, m.page_id as int, self.block_size as int, self.vertex_meta_offset as int);
                &&& decodable(d)
                &&& m.offset_inner < blk_vertices(d).len()
                &&& ns@ == csr_neighbors(blk_vertices(d), blk_edges(d), m.offset_inner as int)
            },
            (forall|j: int| 0 <= j < self.vertex_metas@.len() ==> #[trigger] self.vertex_metas@[j].vertex_id != vertex_id)
                ==> r == Err::<Vec<VId>, BucketError>(BucketError::UnknownVertex),
            forall|j: int|
                0 <= j < self.vertex_metas@.len() && #[trigger] self.vertex_metas@[j].vertex_id == vertex_id
                    && (forall|k: int| 0 <= k < j ==> self.vertex_metas@[k].vertex_id != vertex_id)
                    && self.meta_readable(self.vertex_metas@[j]) ==> r is Ok && r.unwrap()@ == {
                    let m = self.vertex_metas@[j];
                    let d = page_bytes(self.data@, m.page_id as int, self.block_size as int, self.vertex_meta_offset as int);
                    csr_neighbors(blk_vertices(d), blk_edges(d), m.offset_inner as int)
                },
    {
        let mut j: usize = 0;
        while j < self.vertex_metas.len()
            invariant
                self.wf(),
                j <= self.vertex_metas@.len(),
                forall|k: int| 0 <= k < j ==> #[trigger] self.vertex_metas@[k].vertex_id != vertex_id,
            decreases self.vertex_metas@.len() - j,
        {
            let m = self.vertex_metas[j];
            if m.vertex_id == vertex_id {
                let block = match self.read_block(m.page_id) {
                    Ok(b) => b,
                    Err(e) => {
                        return Err(e);
                    },
                };
                return match block.get_neighbor_clone(m.offset_inner as usize) {
                    Some(ns) => Ok(ns),
                    None => Err(BucketError::UnknownVertex),
                };
            }
            j = j + 1;
        }
        Err(BucketError::UnknownVertex)
    }
}

} // verus!
