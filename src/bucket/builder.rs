use vstd::prelude::*;

use super::{
    bloom_admits, bloom_region, footer_block_size, footer_bloom_size, footer_meta_offset, footer_ok, lemma_metas_round_trip,
    meta_region, metas_bytes, metas_decodable, metas_of, page_bytes, BucketError, VertexMeta,
};
use crate::block::builder::{fits, BlockBuilder};
use crate::bloom::{edge_hash, edge_key_hash, Bloom};
use crate::block::{blk_edges, blk_vertices, csr_end, csr_neighbors, csr_valid, decodable};
use crate::codec::{be32_at, be32_bytes, lemma_be32_round_trip, push_be32};
use crate::types::{PageId, VId, VirtualCommId};

verus! {

/// The bytes of page `p` when every page is `block_size` bytes.
pub open spec fn full_page(data: Seq<u8>, p: int, block_size: int) -> Seq<u8> {
    data.subrange(p * block_size, p * block_size + block_size)
}

/// Whether the `j`-th vertex added, `(vid, neighbors)`, is found through meta `m` in the
/// page bytes `d`: at `m`'s offset sits `vid`, with exactly those neighbors.
pub open spec fn meta_finds(d: Seq<u8>, m: VertexMeta, vid: u32, neighbors: Seq<u32>) -> bool {
    &&& decodable(d)
    &&& m.vertex_id == vid
    &&& m.offset_inner < blk_vertices(d).len()
    &&& blk_vertices(d)[m.offset_inner as int].0 == vid
    &&& csr_neighbors(blk_vertices(d), blk_edges(d), m.offset_inner as int) == neighbors
}

proof fn lemma_csr_push(vl: Seq<(u32, u32)>, el: Seq<u32>, v: u32, ns: Seq<u32>)
    requires
        csr_valid(vl, el.len() as int),
        el.len() + ns.len() <= 0xffff,
    ensures
        forall|i: int| 0 <= i < vl.len() ==> #[trigger] csr_neighbors(vl.push((v, el.len() as u32)), el + ns, i)
            == csr_neighbors(vl, el, i),
        csr_neighbors(vl.push((v, el.len() as u32)), el + ns, vl.len() as int) == ns,
{
    let vl2 = vl.push((v, el.len() as u32));
    let el2 = el + ns;
    assert forall|i: int| 0 <= i < vl.len() implies #[trigger] csr_neighbors(vl2, el2, i) == csr_neighbors(vl, el, i) by {
        assert(csr_end(vl2, el2.len() as int, i) == csr_end(vl, el.len() as int, i));
        assert(vl[i].1 <= csr_end(vl, el.len() as int, i) <= el.len());
        assert(csr_neighbors(vl2, el2, i) =~= csr_neighbors(vl, el, i));
    }
    assert(csr_neighbors(vl2, el2, vl.len() as int) =~= ns);
}

/// The key hashes of the edges of the vertices added, vertex by vertex.
pub open spec fn added_hashes(added: Seq<(u32, Seq<u32>)>) -> Seq<u32>
    decreases added.len(),
{
    if added.len() == 0 {
        Seq::empty()
    } else {
        added_hashes(added.drop_last()) + added.last().1.map_values(|d: u32| edge_hash(added.last().0, d))
    }
}

proof fn lemma_added_hash_in(added: Seq<(u32, Seq<u32>)>, j: int, i: int)
    requires
        0 <= j < added.len(),
        0 <= i < added[j].1.len(),
    ensures
        added_hashes(added).contains(edge_hash(added[j].0, added[j].1[i])),
    decreases added.len(),
{
    let init = added.drop_last();
    if j < added.len() - 1 {
        assert(init[j] == added[j]);
        lemma_added_hash_in(init, j, i);
        let q = choose|q: int| 0 <= q < added_hashes(init).len() && added_hashes(init)[q] == edge_hash(added[j].0, added[j].1[i]);
        assert(added_hashes(added)[q] == added_hashes(init)[q]);
    } else {
        let base = added_hashes(init).len() as int;
        assert(added_hashes(added)[base + i] == edge_hash(added[j].0, added[j].1[i]));
    }
}

/// Builds a bucket: vertices and their neighbors go into blocks, one page each, in the
/// order given; a vertex-meta table records where each one went.
pub struct BucketBuilder {
    pub builder: BlockBuilder,
    pub block_size: usize,
    /// The finished pages.
    pub data: Vec<u8>,
    /// Where each vertex of a finished page lives, in the order added.
    pub vertex_metas: Vec<VertexMeta>,
    /// The page the current block will take.
    pub current_page_id: PageId,
    /// The key hash of every edge added so far.
    pub edge_hashes: Vec<u32>,
    /// Every vertex added so far, with its neighbors.
    pub added: Ghost<Seq<(u32, Seq<u32>)>>,
}

impl BucketBuilder {
    pub open spec fn wf(&self) -> bool {
        let added = self.added@;
        let nm = self.vertex_metas@.len();
        &&& self.builder.wf()
        &&& self.builder.block_size == self.block_size
        &&& self.block_size >= 4
        &&& self.edge_hashes@ == added_hashes(added)
        &&& (self.builder.vertices@.len() == 0 ==> self.builder.edges@.len() == 0)
        &&& fits(self.builder.vertices@.len() as int, self.builder.edges@.len() as int, self.block_size as int)
        &&& self.data@.len() == self.current_page_id * self.block_size
        &&& self.current_page_id <= self.vertex_metas@.len()
        &&& nm + self.builder.vertices@.len() == added.len()
        &&& forall|j: int| 0 <= j < nm ==> {
            let m = #[trigger] self.vertex_metas@[j];
            &&& m.page_id < self.current_page_id
            &&& meta_finds(full_page(self.data@, m.page_id as int, self.block_size as int), m, added[j].0, added[j].1)
        }
        &&& forall|i: int| 0 <= i < self.builder.vertices@.len() ==> {
            &&& (#[trigger] self.builder.vertices@[i]).0 == added[nm + i].0
            &&& csr_neighbors(self.builder.vertices@, self.builder.edges@, i) == added[nm + i].1
        }
    }

    /// An empty builder for pages of `block_size` bytes.
    pub fn new(block_size: usize) -> (r: Self)
        requires
            block_size >= 4,
        ensures
            r.wf(),
            r.added@ == Seq::<(u32, Seq<u32>)>::empty(),
            r.block_size == block_size,
    {
        BucketBuilder {
            builder: BlockBuilder::new(block_size),
            block_size,
            data: Vec::new(),
            vertex_metas: Vec::new(),
            current_page_id: 0,
            edge_hashes: Vec::new(),
            added: Ghost(Seq::empty()),
        }
    }

    /// Adds a vertex and its neighbors; when the current block is full it is finished
    /// and the vertex starts the next one.
    pub fn add(&mut self, vertex_id: VId, neighbors: &[VId]) -> (r: Result<(), BucketError>)
        requires
            old(self).wf(),
            neighbors@.len() <= 0xffff,
            fits(1, neighbors@.len() as int, old(self).block_size as int),
        ensures
            final(self).wf(),
            final(self).block_size == old(self).block_size,
            r is Ok ==> final(self).added@ == old(self).added@.push((vertex_id, neighbors@)),
            r is Err ==> r == Err::<(), BucketError>(BucketError::TooLarge) && final(self).added@ == old(self).added@,
            old(self).current_page_id < u32::MAX && old(self).data@.len() + old(self).block_size <= usize::MAX
                ==> r is Ok,
            final(self).data@.len() <= old(self).data@.len() + old(self).block_size,
            final(self).current_page_id <= old(self).current_page_id + 1,
            r is Ok ==> final(self).edge_hashes@.len() == old(self).edge_hashes@.len() + neighbors@.len(),
    {
        let ghost old_hashes = self.edge_hashes@;
        let mut hashes: Vec<u32> = Vec::new();
        let mut t: usize = 0;
        while t < neighbors.len()
            invariant
                t <= neighbors@.len(),
                hashes@ == neighbors@.subrange(0, t as int).map_values(|d: u32| edge_hash(vertex_id, d)),
            decreases neighbors@.len() - t,
        {
            let eh = edge_key_hash(vertex_id, neighbors[t]);
            hashes.push(eh);
            assert(hashes@ =~= neighbors@.subrange(0, t + 1).map_values(|d: u32| edge_hash(vertex_id, d)));
            t = t + 1;
        }
        assert(neighbors@.subrange(0, neighbors@.len() as int) =~= neighbors@);
        let ghost new_hashes = old_hashes + hashes@;
        let ghost vl = self.builder.vertices@;
        let ghost el = self.builder.edges@;
        let ghost old_added = self.added@;
        assert(old_added.push((vertex_id, neighbors@)).drop_last() =~= old_added);
        assert(added_hashes(old_added.push((vertex_id, neighbors@))) == new_hashes);
        if self.builder.add_vertex(vertex_id, neighbors) {
            self.edge_hashes.append(&mut hashes);
            proof {
                lemma_csr_push(vl, el, vertex_id, neighbors@);
                self.added@ = self.added@.push((vertex_id, neighbors@));
                let nm = self.vertex_metas@.len();
                assert forall|j: int| 0 <= j < nm implies {
                    let m = #[trigger] self.vertex_metas@[j];
                    &&& m.page_id < self.current_page_id
                    &&& meta_finds(full_page(self.data@, m.page_id as int, self.block_size as int), m, self.added@[j].0, self.added@[j].1)
                } by {
                    assert(self.added@[j] == old_added[j]);
                }
                assert forall|i: int| 0 <= i < self.builder.vertices@.len() implies {
                    &&& (#[trigger] self.builder.vertices@[i]).0 == self.added@[nm + i].0
                    &&& csr_neighbors(self.builder.vertices@, self.builder.edges@, i) == self.added@[nm + i].1
                } by {
                    if i < vl.len() {
                        assert(self.builder.vertices@[i] == vl[i]);
                    }
                }
            }
            return Ok(());
        }
        match self.finish_block() {
            Ok(()) => {},
            Err(e) => {
                return Err(e);
            },
        }
        self.edge_hashes.append(&mut hashes);
        let ghost vl = self.builder.vertices@;
        let ghost el = self.builder.edges@;
        let added = self.builder.add_vertex(vertex_id, neighbors);
        assert(added);
        proof {
            lemma_csr_push(vl, el, vertex_id, neighbors@);
            self.added@ = self.added@.push((vertex_id, neighbors@));
            let nm = self.vertex_metas@.len();
            assert forall|j: int| 0 <= j < nm implies {
                let m = #[trigger] self.vertex_metas@[j];
                &&& m.page_id < self.current_page_id
                &&& meta_finds(full_page(self.data@, m.page_id as int, self.block_size as int), m, self.added@[j].0, self.added@[j].1)
            } by {
                assert(self.added@[j] == old_added[j]);
            }
            assert(el =~= Seq::<u32>::empty());
            assert(el + neighbors@ =~= neighbors@);
            assert forall|i: int| 0 <= i < self.builder.vertices@.len() implies {
                &&& (#[trigger] self.builder.vertices@[i]).0 == self.added@[nm + i].0
                &&& csr_neighbors(self.builder.vertices@, self.builder.edges@, i) == self.added@[nm + i].1
            } by {}
        }
        Ok(())
    }

    /// Builds the current block, appends it as the next page, and records where its
    /// vertices live.
    pub fn finish_block(&mut self) -> (r: Result<(), BucketError>)
        requires
            old(self).wf(),
        ensures
            final(self).wf(),
            final(self).block_size == old(self).block_size,
            final(self).added@ == old(self).added@,
            r is Ok ==> final(self).builder.vertices@.len() == 0 && final(self).builder.edges@.len() == 0,
            r is Err ==> r == Err::<(), BucketError>(BucketError::TooLarge),
            old(self).current_page_id < u32::MAX && old(self).data@.len() + old(self).block_size <= usize::MAX
                ==> r is Ok,
            final(self).data@.len() <= old(self).data@.len() + old(self).block_size,
            final(self).current_page_id <= old(self).current_page_id + 1,
            final(self).edge_hashes == old(self).edge_hashes,
    {
        if self.builder.is_empty() {
            return Ok(());
        }
        let bs = self.block_size;
        if self.current_page_id == u32::MAX || self.data.len() > usize::MAX - bs {
            return Err(BucketError::TooLarge);
        }
        let ghost added = self.added@;
        let mut current = BlockBuilder::new(bs);
        std::mem::swap(&mut current, &mut self.builder);
        let mut data: Vec<u8> = Vec::new();
        std::mem::swap(&mut data, &mut self.data);
        let mut metas: Vec<VertexMeta> = Vec::new();
        std::mem::swap(&mut metas, &mut self.vertex_metas);
        let ghost vl = current.vertices@;
        let ghost el = current.edges@;
        let ghost old_data = data@;
        let ghost old_metas = metas@;
        let nm0 = metas.len();
        let page_id = self.current_page_id;
        assert(vl.len() > 0);
        let (block, _) = current.build();
        let mut i: usize = 0;
        while i < block.data.len()
            invariant
                i <= block.data@.len(),
                block.data@.len() == bs,
                old_data.len() + bs <= usize::MAX,
                data@ == old_data + block.data@.subrange(0, i as int),
            decreases block.data@.len() - i,
        {
            data.push(block.data[i]);
            assert(data@ =~= old_data + block.data@.subrange(0, i + 1));
            i = i + 1;
        }
        assert(block.data@.subrange(0, block.data@.len() as int) =~= block.data@);
        proof {
            assert(old_data.len() == page_id * bs);
            assert(full_page(data@, page_id as int, bs as int) =~= block.data@);
            assert forall|j: int| 0 <= j < nm0 implies {
                let m = #[trigger] old_metas[j];
                &&& m.page_id <= page_id
                &&& meta_finds(full_page(data@, m.page_id as int, bs as int), m, added[j].0, added[j].1)
            } by {
                let m = old_metas[j];
                assert(m.page_id < page_id);
                assert(m.page_id * bs + bs <= page_id * bs) by (nonlinear_arith)
                    requires
                        m.page_id < page_id,
                ;
                assert(full_page(data@, m.page_id as int, bs as int) =~= full_page(old_data, m.page_id as int, bs as int));
            }
        }
        let count = block.vertex_count as usize;
        let mut k: usize = 0;
        while k < count
            invariant
                k <= count,
                count == vl.len(),
                count <= 0xffff,
                block.wf(),
                block.vertices() == vl,
                block.edges() == el,
                full_page(data@, page_id as int, bs as int) == block.data@,
                metas@.len() == nm0 + k,
                nm0 + vl.len() == added.len(),
                forall|j: int| 0 <= j < nm0 + k ==> {
                    let m = #[trigger] metas@[j];
                    &&& m.page_id <= page_id
                    &&& meta_finds(full_page(data@, m.page_id as int, bs as int), m, added[j].0, added[j].1)
                },
                forall|i: int| 0 <= i < vl.len() ==> {
                    &&& (#[trigger] vl[i]).0 == added[nm0 + i].0
                    &&& csr_neighbors(vl, el, i) == added[nm0 + i].1
                },
            decreases count - k,
        {
            let vid = block.get_vertex_id_at_index(k);
            let ghost before = metas@;
            metas.push(VertexMeta { vertex_id: vid, page_id, offset_inner: k as u16 });
            proof {
                assert forall|j: int| 0 <= j < nm0 + k + 1 implies {
                    let m = #[trigger] metas@[j];
                    &&& m.page_id <= page_id
                    &&& meta_finds(full_page(data@, m.page_id as int, bs as int), m, added[j].0, added[j].1)
                } by {
                    if j < nm0 + k {
                        assert(metas@[j] == before[j]);
                    } else {
                        assert(vl[k as int].0 == added[nm0 + k].0);
                    }
                }
            }
            k = k + 1;
        }
        self.data = data;
        self.vertex_metas = metas;
        self.current_page_id = page_id + 1;
        proof {
            assert(self.data@.len() == self.current_page_id * bs) by (nonlinear_arith)
                requires
                    self.data@.len() == page_id * bs + bs,
                    self.current_page_id == page_id + 1,
            ;
            assert(self.builder.vertices@.len() == 0);
        }
        Ok(())
    }

    /// The bytes of the bucket: the pages, the vertex-meta table, the bloom filter over every
    /// edge added (bits per key by the edge count) and the footer (block size, vertex-meta
    /// offset, bloom size; big-endian `u32`s). Every vertex added is found through its
    /// vertex-meta entry, with exactly its neighbors, and the bloom admits every edge added.
    pub fn build(self, id: VirtualCommId) -> (r: Result<Vec<u8>, BucketError>)
        requires
            self.wf(),
        ensures
            r matches Ok(bytes) ==> {
                let metas = metas_of(meta_region(bytes@));
                &&& footer_ok(bytes@)
                &&& metas_decodable(meta_region(bytes@))
                &&& footer_block_size(bytes@) == self.block_size
                &&& metas.len() == self.added@.len()
                &&& forall|j: int| 0 <= j < metas.len() ==> {
                    let m = #[trigger] metas[j];
                    &&& m.page_id * self.block_size < footer_meta_offset(bytes@)
                    &&& meta_finds(
                        page_bytes(bytes@, m.page_id as int, self.block_size as int, footer_meta_offset(bytes@)),
                        m,
                        self.added@[j].0,
                        self.added@[j].1,
                    )
                }
            },
            r is Err ==> r == Err::<Vec<u8>, BucketError>(BucketError::TooLarge),
            r matches Ok(bytes) ==> forall|j: int, i: int| 0 <= j < self.added@.len() && 0 <= i < self.added@[j].1.len()
                ==> #[trigger] bloom_admits(bloom_region(bytes@), edge_hash(self.added@[j].0, self.added@[j].1[i])),
            self.current_page_id < u32::MAX && self.data@.len() + self.block_size + 16 + 10 * self.added@.len() + 12
                * self.edge_hashes@.len() + 100 <= u32::MAX ==> r is Ok,
    {
        let ghost cond = self.current_page_id < u32::MAX && self.data@.len() + self.block_size + 16 + 10
            * self.added@.len() + 12 * self.edge_hashes@.len() + 100 <= u32::MAX;
        let mut this = self;
        match this.finish_block() {
            Ok(()) => {},
            Err(e) => {
                return Err(e);
            },
        }
        let ghost added = this.added@;
        let ghost pages = this.data@;
        let ghost metas = this.vertex_metas@;
        let bs = this.block_size;
        let cur = this.current_page_id;
        if this.data.len() > u32::MAX as usize || this.vertex_metas.len() > u32::MAX as usize
            || bs > u32::MAX as usize {
            return Err(BucketError::TooLarge);
        }
        let mut buf = this.data;
        let vertex_meta_offset = buf.len();
        VertexMeta::encode(this.vertex_metas.as_slice(), &mut buf);
        proof {
            crate::bucket::lemma_metas_body(metas);
            crate::codec::lemma_be32_round_trip(metas.len() as u32);
        }
        let ghost hashes = this.edge_hashes@;
        let e = this.edge_hashes.len();
        if e > (usize::MAX - 71) / 10 {
            assert(!cond);
            return Err(BucketError::TooLarge);
        }
        let bits_per_key = crate::bloom::calculate_bits_per_key(e);
        let bloom = Bloom::build_from_key_hashes(this.edge_hashes.as_slice(), bits_per_key);
        let before_len = buf.len();
        bloom.encode(&mut buf);
        let bloom_size = buf.len() - before_len;
        proof {
            assert(metas.len() == added.len());
            if cond {
                assert(bloom.filter@.len() * 8 <= e * 10 + 71) by (nonlinear_arith)
                    requires
                        bloom.filter@.len() * 8 <= e * bits_per_key + 71,
                        bits_per_key <= 10,
                ;
                assert(buf@.len() == pages.len() + 4 + 10 * metas.len() + bloom.filter@.len() + 1);
            }
        }
        if bloom_size > u32::MAX as usize || buf.len() > usize::MAX - 12 {
            assert(!cond);
            return Err(BucketError::TooLarge);
        }
        push_be32(&mut buf, bs as u32);
        push_be32(&mut buf, vertex_meta_offset as u32);
        push_be32(&mut buf, bloom_size as u32);
        proof {
            let bl = bloom.filter@ + seq![bloom.k];
            assert(buf@ =~= pages + metas_bytes(metas) + bl + be32_bytes(bs as u32) + be32_bytes(vertex_meta_offset as u32)
                + be32_bytes(bloom_size as u32));
            lemma_bucket_bytes(pages, metas, bs as int, cur as int, added, bl, buf@);
            lemma_bloom_admits_added(added, bloom, bl);
        }
        Ok(buf)
    }
}

proof fn lemma_bloom_admits_added(added: Seq<(u32, Seq<u32>)>, bloom: Bloom, bl: Seq<u8>)
    requires
        bloom.holds_all(added_hashes(added)),
        bloom.filter@.len() >= 8,
        bl == bloom.filter@ + seq![bloom.k],
    ensures
        forall|j: int, i: int| 0 <= j < added.len() && 0 <= i < added[j].1.len()
            ==> #[trigger] bloom_admits(bl, edge_hash(added[j].0, added[j].1[i])),
{
    let hashes = added_hashes(added);
    assert(bl.subrange(0, bl.len() - 1) =~= bloom.filter@);
    assert(bl[bl.len() - 1] == bloom.k);
    assert forall|j: int, i: int| 0 <= j < added.len() && 0 <= i < added[j].1.len()
        implies #[trigger] bloom_admits(bl, edge_hash(added[j].0, added[j].1[i])) by {
        lemma_added_hash_in(added, j, i);
        let q = choose|q: int| 0 <= q < hashes.len() && hashes[q] == edge_hash(added[j].0, added[j].1[i]);
        assert(crate::bloom::filter_has(bloom.filter@, bloom.k as int, hashes[q]));
    }
}

/// The bytes of a bucket (pages, vertex-meta table, bloom, footer) make every vertex
/// recorded in the table findable at its page.
proof fn lemma_bucket_bytes(
    pages: Seq<u8>,
    metas: Seq<VertexMeta>,
    bs: int,
    cur: int,
    added: Seq<(u32, Seq<u32>)>,
    bl: Seq<u8>,
    b: Seq<u8>,
)
    requires
        0 < bs <= u32::MAX,
        bl.len() <= u32::MAX,
        pages.len() <= u32::MAX,
        metas.len() <= u32::MAX,
        pages.len() == cur * bs,
        metas.len() == added.len(),
        b == pages + metas_bytes(metas) + bl + be32_bytes(bs as u32) + be32_bytes(pages.len() as u32) + be32_bytes(bl.len() as u32),
        forall|j: int| 0 <= j < metas.len() ==> {
            let m = #[trigger] metas[j];
            &&& m.page_id < cur
            &&& meta_finds(full_page(pages, m.page_id as int, bs), m, added[j].0, added[j].1)
        },
    ensures
        footer_ok(b),
        metas_decodable(meta_region(b)),
        footer_block_size(b) == bs,
        footer_bloom_size(b) == bl.len(),
        bloom_region(b) == bl,
        footer_meta_offset(b) == pages.len(),
        metas_of(meta_region(b)) == metas,
        forall|j: int| 0 <= j < metas.len() ==> {
            let m = #[trigger] metas[j];
            &&& m.page_id * bs < pages.len()
            &&& meta_finds(page_bytes(b, m.page_id as int, bs, pages.len() as int), m, added[j].0, added[j].1)
        },
{
    let n = b.len() as int;
    lemma_be32_round_trip(bs as u32);
    lemma_be32_round_trip(pages.len() as u32);
    lemma_be32_round_trip(bl.len() as u32);
    crate::bucket::lemma_metas_body(metas);
    lemma_be32_round_trip(metas.len() as u32);
    assert(be32_at(b, n - 12) == be32_at(be32_bytes(bs as u32), 0));
    assert(be32_at(b, n - 8) == be32_at(be32_bytes(pages.len() as u32), 0));
    assert(be32_at(b, n - 4) == be32_at(be32_bytes(bl.len() as u32), 0));
    assert(meta_region(b) =~= metas_bytes(metas) + Seq::<u8>::empty());
    assert(bloom_region(b) =~= bl);
    lemma_metas_round_trip(metas, Seq::<u8>::empty());
    assert forall|j: int| 0 <= j < metas.len() implies {
        let m = #[trigger] metas[j];
        &&& m.page_id * bs < pages.len()
        &&& meta_finds(page_bytes(b, m.page_id as int, bs, pages.len() as int), m, added[j].0, added[j].1)
    } by {
        let m = metas[j];
        assert(m.page_id * bs + bs <= cur * bs) by (nonlinear_arith)
            requires
                m.page_id < cur,
                bs > 0,
        ;
        assert(page_bytes(b, m.page_id as int, bs, pages.len() as int) =~= full_page(pages, m.page_id as int, bs));
    }
}

} // verus!
