use vstd::prelude::*;

use crate::cache::{cache_key_of, CacheKey};
use crate::graph::{is_community_list, lists_view, CsrGraph};
use crate::partition::{giants_before, partition_communities, partitioned, smalls_before, MAX_VIRTUAL_COMMS};
use crate::types::{CommId, VId};

verus! {

/// Bit 63 of a record: set for a giant vertex.
pub const GIANT_FLAG: u64 = 0x8000_0000_0000_0000;

/// Whether a packed record marks a giant vertex.
pub open spec fn item_is_giant(x: u64) -> bool {
    x & GIANT_FLAG != 0
}

/// The virtual community of a normal record: bits 62..48.
pub open spec fn item_vcomm(x: u64) -> u16 {
    ((x >> 48u64) & 0x7fffu64) as u16
}

/// The page of a normal record: bits 47..16.
pub open spec fn item_page(x: u64) -> u32 {
    ((x >> 16u64) & 0xffff_ffffu64) as u32
}

/// The in-page offset of a normal record: bits 15..0.
pub open spec fn item_offset(x: u64) -> u16 {
    (x & 0xffffu64) as u16
}

/// The normal record of a virtual community, a page and an in-page offset.
pub open spec fn item_pack(virtual_comm_id: u16, page_id: u32, offset: u16) -> u64 {
    ((virtual_comm_id as u64) << 48u64) | ((page_id as u64) << 16u64) | (offset as u64)
}

proof fn lemma_pack_bits(v: u64, p: u64, o: u64)
    by (bit_vector)
    requires
        v < 0x8000,
        p < 0x1_0000_0000,
        o < 0x10000,
    ensures
        ((v << 48u64) | (p << 16u64) | o) & 0x8000_0000_0000_0000u64 == 0,
        ((((v << 48u64) | (p << 16u64) | o) >> 48u64) & 0x7fffu64) == v,
        ((((v << 48u64) | (p << 16u64) | o) >> 16u64) & 0xffff_ffffu64) == p,
        (((v << 48u64) | (p << 16u64) | o) & 0xffffu64) == o,
{
}

proof fn lemma_set_vcomm_bits(x: u64, v: u64)
    by (bit_vector)
    requires
        x & 0x8000_0000_0000_0000u64 == 0,
        v < 0x8000,
    ensures
        ((x & 0x0000_ffff_ffff_ffffu64) | (v << 48u64)) & 0x8000_0000_0000_0000u64 == 0,
        ((((x & 0x0000_ffff_ffff_ffffu64) | (v << 48u64)) >> 48u64) & 0x7fffu64) == v,
        ((((x & 0x0000_ffff_ffff_ffffu64) | (v << 48u64)) >> 16u64) & 0xffff_ffffu64) == ((x
            >> 16u64) & 0xffff_ffffu64),
        (((x & 0x0000_ffff_ffff_ffffu64) | (v << 48u64)) & 0xffffu64) == (x & 0xffffu64),
{
}

proof fn lemma_set_page_bits(x: u64, p: u64)
    by (bit_vector)
    requires
        x & 0x8000_0000_0000_0000u64 == 0,
        p < 0x1_0000_0000,
    ensures
        ((x & 0xffff_0000_0000_ffffu64) | (p << 16u64)) & 0x8000_0000_0000_0000u64 == 0,
        ((((x & 0xffff_0000_0000_ffffu64) | (p << 16u64)) >> 48u64) & 0x7fffu64) == ((x >> 48u64)
            & 0x7fffu64),
        ((((x & 0xffff_0000_0000_ffffu64) | (p << 16u64)) >> 16u64) & 0xffff_ffffu64) == p,
        (((x & 0xffff_0000_0000_ffffu64) | (p << 16u64)) & 0xffffu64) == (x & 0xffffu64),
{
}

proof fn lemma_set_offset_bits(x: u64, o: u64)
    by (bit_vector)
    requires
        x & 0x8000_0000_0000_0000u64 == 0,
        o < 0x10000,
    ensures
        ((x & 0xffff_ffff_ffff_0000u64) | o) & 0x8000_0000_0000_0000u64 == 0,
        ((((x & 0xffff_ffff_ffff_0000u64) | o) >> 48u64) & 0x7fffu64) == ((x >> 48u64) & 0x7fffu64),
        ((((x & 0xffff_ffff_ffff_0000u64) | o) >> 16u64) & 0xffff_ffffu64) == ((x >> 16u64)
            & 0xffff_ffffu64),
        (((x & 0xffff_ffff_ffff_0000u64) | o) & 0xffffu64) == o,
{
}

proof fn lemma_giant_bit()
    by (bit_vector)
    ensures
        0x8000_0000_0000_0000u64 & 0x8000_0000_0000_0000u64 != 0,
{
}

/// Reading the fields of a normal record gives back the virtual community, page and
/// offset it was packed from, and its cache key is the key of that community and page.
pub proof fn lemma_item_fields(virtual_comm_id: u16, page_id: u32, offset: u16)
    requires
        virtual_comm_id < 0x8000,
    ensures
        !item_is_giant(item_pack(virtual_comm_id, page_id, offset)),
        item_vcomm(item_pack(virtual_comm_id, page_id, offset)) == virtual_comm_id,
        item_page(item_pack(virtual_comm_id, page_id, offset)) == page_id,
        item_offset(item_pack(virtual_comm_id, page_id, offset)) == offset,
        cache_key_of(
            item_vcomm(item_pack(virtual_comm_id, page_id, offset)),
            item_page(item_pack(virtual_comm_id, page_id, offset)),
        ) == cache_key_of(virtual_comm_id, page_id),
{
    lemma_pack_bits(virtual_comm_id as u64, page_id as u64, offset as u64);
}

/// Where a vertex lives, packed into 64 bits: bit 63 marks a giant vertex; a normal one
/// has its virtual community in bits 62..48, its page in 47..16 and its offset in 15..0.
#[derive(Debug, Clone, Copy, PartialEq, Eq, Hash, Structural)]
pub struct VertexIndexItem(pub u64);

impl VertexIndexItem {
    /// A normal record.
    pub fn normal(virtual_comm_id: u16, page_id: u32, offset: u16) -> (r: Self)
        requires
            virtual_comm_id < 0x8000,
        ensures
            r.0 == item_pack(virtual_comm_id, page_id, offset),
            !item_is_giant(r.0),
            item_vcomm(r.0) == virtual_comm_id,
            item_page(r.0) == page_id,
            item_offset(r.0) == offset,
    {
        proof {
            lemma_item_fields(virtual_comm_id, page_id, offset);
        }
        VertexIndexItem(
            ((virtual_comm_id as u64) << 48u64) | ((page_id as u64) << 16u64) | (offset as u64),
        )
    }

    /// The giant record.
    pub fn giant() -> (r: Self)
        ensures
            r.0 == GIANT_FLAG,
            item_is_giant(r.0),
    {
        proof {
            lemma_giant_bit();
        }
        VertexIndexItem(GIANT_FLAG)
    }

    /// Whether the record is normal.
    pub fn is_normal(&self) -> (r: bool)
        ensures
            r == !item_is_giant(self.0),
    {
        self.0 & GIANT_FLAG == 0
    }

    /// Whether the record is giant.
    pub fn is_giant(&self) -> (r: bool)
        ensures
            r == item_is_giant(self.0),
    {
        self.0 & GIANT_FLAG != 0
    }

    /// Sets all three fields of a normal record.
    pub fn set_normal(&mut self, virtual_comm_id: u16, page_id: u32, offset: u16)
        requires
            !item_is_giant(old(self).0),
            virtual_comm_id < 0x8000,
        ensures
            final(self).0 == item_pack(virtual_comm_id, page_id, offset),
            !item_is_giant(final(self).0),
            item_vcomm(final(self).0) == virtual_comm_id,
            item_page(final(self).0) == page_id,
            item_offset(final(self).0) == offset,
    {
        *self = Self::normal(virtual_comm_id, page_id, offset);
    }

    /// Sets the virtual community of a normal record; the other fields stay.
    pub fn set_virtual_comm_id(&mut self, virtual_comm_id: u16)
        requires
            !item_is_giant(old(self).0),
            virtual_comm_id < 0x8000,
        ensures
            !item_is_giant(final(self).0),
            item_vcomm(final(self).0) == virtual_comm_id,
            item_page(final(self).0) == item_page(old(self).0),
            item_offset(final(self).0) == item_offset(old(self).0),
    {
        proof {
            lemma_set_vcomm_bits(self.0, virtual_comm_id as u64);
        }
        self.0 = (self.0 & 0x0000_ffff_ffff_ffffu64) | ((virtual_comm_id as u64) << 48u64);
    }

    /// Sets the page of a normal record; the other fields stay.
    pub fn set_page_id(&mut self, page_id: u32)
        requires
            !item_is_giant(old(self).0),
        ensures
            !item_is_giant(final(self).0),
            item_vcomm(final(self).0) == item_vcomm(old(self).0),
            item_page(final(self).0) == page_id,
            item_offset(final(self).0) == item_offset(old(self).0),
    {
        proof {
            lemma_set_page_bits(self.0, page_id as u64);
        }
        self.0 = (self.0 & 0xffff_0000_0000_ffffu64) | ((page_id as u64) << 16u64);
    }

    /// Sets the in-page offset of a normal record; the other fields stay.
    pub fn set_offset(&mut self, offset: u16)
        requires
            !item_is_giant(old(self).0),
        ensures
            !item_is_giant(final(self).0),
            item_vcomm(final(self).0) == item_vcomm(old(self).0),
            item_page(final(self).0) == item_page(old(self).0),
            item_offset(final(self).0) == offset,
    {
        proof {
            lemma_set_offset_bits(self.0, offset as u64);
        }
        self.0 = (self.0 & 0xffff_ffff_ffff_0000u64) | (offset as u64);
    }

    /// The block-cache key of a normal record, `None` for a giant one.
    pub fn to_cache_key(&self) -> (r: Option<CacheKey>)
        ensures
            r == (if item_is_giant(self.0) {
                None
            } else {
                Some(CacheKey(cache_key_of(item_vcomm(self.0), item_page(self.0))))
            }),
    {
        if self.is_normal() {
            Some(CacheKey::new(self.virtual_comm_id(), self.page_id()))
        } else {
            None
        }
    }

    /// The three fields of a normal record, `None` for a giant one.
    pub fn as_normal(&self) -> (r: Option<(u16, u32, u16)>)
        ensures
            r == (if item_is_giant(self.0) {
                None
            } else {
                Some((item_vcomm(self.0), item_page(self.0), item_offset(self.0)))
            }),
    {
        if self.is_normal() {
            Some((self.virtual_comm_id(), self.page_id(), self.offset()))
        } else {
            None
        }
    }

    /// The virtual community of a normal record.
    pub fn virtual_comm_id(&self) -> (r: u16)
        ensures
            r == item_vcomm(self.0),
    {
        ((self.0 >> 48u64) & 0x7fffu64) as u16
    }

    /// The page of a normal record.
    pub fn page_id(&self) -> (r: u32)
        ensures
            r == item_page(self.0),
    {
        ((self.0 >> 16u64) & 0xffff_ffffu64) as u32
    }

    /// The in-page offset of a normal record.
    pub fn offset(&self) -> (r: u16)
        ensures
            r == item_offset(self.0),
    {
        (self.0 & 0xffffu64) as u16
    }
}

/// Why a vertex index cannot be built or extended.
#[derive(Debug, Clone, Copy, PartialEq, Eq, Structural)]
pub enum IndexError {
    /// The communities need more virtual communities than 15 bits can number.
    TooManyVirtualCommunities,
    /// No vertex id is left.
    VertexIdsExhausted,
}

/// Expected packed size in bytes of the normal vertices among the first `k` that belong
/// to community `c`: four bytes per vertex and per neighbor.
pub open spec fn comm_size(g: CsrGraph, giant_vertex_boundary: usize, c: int, k: int) -> int
    decreases k,
{
    if k <= 0 {
        0
    } else {
        comm_size(g, giant_vertex_boundary, c, k - 1) + if g.community_map@[k - 1] == c && g.adj(
            k - 1,
        ).len() < giant_vertex_boundary {
            (g.adj(k - 1).len() + 1) * 4
        } else {
            0
        }
    }
}

/// Where every vertex lives, the communities, and the degrees.
pub struct VertexIndex {
    /// Vertices of at least this degree are giant.
    pub giant_vertex_boundary: usize,
    /// Communities of at least this packed size get a virtual community of their own.
    pub giant_community_boundary: usize,
    /// The packed record of each vertex.
    pub vertex_array: Vec<VertexIndexItem>,
    /// The community of each vertex.
    pub community_map: Vec<CommId>,
    /// The vertices of each community.
    pub community_list: Vec<Vec<VId>>,
    /// The degree of each vertex.
    pub vertex_degree: Vec<u32>,
}

impl Default for VertexIndex {
    fn default() -> (r: Self)
        ensures
            r.vertex_array@.len() == 0,
            r.community_map@.len() == 0,
            r.community_list@.len() == 0,
            r.vertex_degree@.len() == 0,
            r.giant_vertex_boundary == 0,
            r.giant_community_boundary == 0,
    {
        VertexIndex {
            giant_vertex_boundary: 0,
            giant_community_boundary: 0,
            vertex_array: Vec::new(),
            community_map: Vec::new(),
            community_list: Vec::new(),
            vertex_degree: Vec::new(),
        }
    }
}

/// Copies nested vectors.
fn copy_lists(src: &Vec<Vec<VId>>) -> (r: Vec<Vec<VId>>)
    ensures
        lists_view(r@) == lists_view(src@),
{
    let mut out: Vec<Vec<VId>> = Vec::new();
    let mut i: usize = 0;
    while i < src.len()
        invariant
            i <= src@.len(),
            out@.len() == i,
            forall|k: int| 0 <= k < i ==> (#[trigger] out@[k])@ == src@[k]@,
        decreases src@.len() - i,
    {
        out.push(vstd::slice::slice_to_vec(src[i].as_slice()));
        i = i + 1;
    }
    assert(lists_view(out@) =~= lists_view(src@));
    out
}

impl VertexIndex {
    /// The virtual communities, each with its normal vertices in ascending order.
    pub fn get_virtual_community_list_for_test(&self) -> (r: Vec<Vec<VId>>)
        requires
            self.vertex_array@.len() <= 0x1_0000_0000,
        ensures
            forall|g: int, x: u32|
                0 <= g < r@.len() ==> (#[trigger] r@[g]@.contains(x) <==> (x < self.vertex_array@.len()
                    && !item_is_giant(self.vertex_array@[x as int].0) && item_vcomm(
                    self.vertex_array@[x as int].0,
                ) == g)),
            forall|x: int|
                0 <= x < self.vertex_array@.len() && !item_is_giant(#[trigger] self.vertex_array@[x].0)
                    ==> item_vcomm(self.vertex_array@[x].0) < r@.len(),
            forall|g: int, i: int, j: int| 0 <= g < r@.len() && 0 <= i < j < r@[g]@.len() ==> #[trigger] r@[g]@[i] < #[trigger] r@[g]@[j],
            r@.len() >= 1,
            r@.len() <= MAX_VIRTUAL_COMMS,
            r@.len() == 1 || exists|x: int| 0 <= x < self.vertex_array@.len() && !item_is_giant(self.vertex_array@[x].0)
                && item_vcomm(self.vertex_array@[x].0) == r@.len() - 1,
    {
        let n = self.vertex_array.len();
        let mut max_id: u16 = 0;
        let mut v: usize = 0;
        while v < n
            invariant
                n == self.vertex_array@.len(),
                v <= n,
                forall|x: int| 0 <= x < v && !item_is_giant(#[trigger] self.vertex_array@[x].0)
                    ==> item_vcomm(self.vertex_array@[x].0) <= max_id,
                max_id < 0x8000,
                max_id == 0 || exists|x: int| 0 <= x < v && !item_is_giant(self.vertex_array@[x].0)
                    && item_vcomm(self.vertex_array@[x].0) == max_id,
            decreases n - v,
        {
            let item = self.vertex_array[v];
            if item.is_normal() && item.virtual_comm_id() > max_id {
                max_id = item.virtual_comm_id();
                assert(self.vertex_array@[v as int] == item);
            }
            proof {
                lemma_vcomm_bound(item.0);
            }
            v = v + 1;
        }
        let count = max_id as usize + 1;
        let mut groups: Vec<Vec<VId>> = Vec::new();
        let mut g: usize = 0;
        while g < count
            invariant
                g <= count,
                groups@.len() == g,
                forall|k: int| 0 <= k < g ==> (#[trigger] groups@[k])@.len() == 0,
            decreases count - g,
        {
            groups.push(Vec::new());
            g = g + 1;
        }
        let mut v: usize = 0;
        while v < n
            invariant
                n == self.vertex_array@.len(),
                n <= 0x1_0000_0000,
                v <= n,
                groups@.len() == count,
                count == max_id + 1,
                forall|x: int| 0 <= x < n && !item_is_giant(#[trigger] self.vertex_array@[x].0)
                    ==> item_vcomm(self.vertex_array@[x].0) <= max_id,
                forall|k: int, i: int| 0 <= k < count && 0 <= i < groups@[k]@.len() ==> #[trigger] groups@[k]@[i] < v,
                forall|k: int, i: int, j: int| 0 <= k < count && 0 <= i < j < groups@[k]@.len() ==> #[trigger] groups@[k]@[i] < #[trigger] groups@[k]@[j],
                forall|k: int, x: u32|
                    0 <= k < count ==> (#[trigger] groups@[k]@.contains(x) <==> (x < v
                        && !item_is_giant(self.vertex_array@[x as int].0) && item_vcomm(self.vertex_array@[x as int].0) == k)),
            decreases n - v,
        {
            let item = self.vertex_array[v];
            let ghost before = groups@;
            if item.is_normal() {
                let k = item.virtual_comm_id() as usize;
                groups[k].push(v as u32);
            }
            proof {
                assert forall|k: int, x: u32| 0 <= k < count implies (#[trigger] groups@[k]@.contains(x)
                    <==> (x < v + 1 && !item_is_giant(self.vertex_array@[x as int].0) && item_vcomm(self.vertex_array@[x as int].0) == k)) by {
                    let bf = before[k]@;
                    let nw = groups@[k]@;
                    if bf.contains(x) {
                        let i = choose|i: int| 0 <= i < bf.len() && bf[i] == x;
                        assert(bf[i] < v);
                    }
                    if !item_is_giant(item.0) && k == item_vcomm(item.0) {
                        assert(nw == bf.push(v as u32));
                        if x == v as u32 {
                            assert(nw[bf.len() as int] == x);
                        } else {
                            if nw.contains(x) {
                                let i = choose|i: int| 0 <= i < nw.len() && nw[i] == x;
                                assert(i < bf.len());
                                assert(bf[i] == x);
                            }
                            if bf.contains(x) {
                                let i = choose|i: int| 0 <= i < bf.len() && bf[i] == x;
                                assert(nw[i] == x);
                            }
                        }
                    } else {
                        assert(groups@[k] == before[k]);
                    }
                }
                assert forall|k: int, i: int, j: int| 0 <= k < count && 0 <= i < j < groups@[k]@.len() implies #[trigger] groups@[k]@[i] < #[trigger] groups@[k]@[j] by {
                    if !item_is_giant(item.0) && k == item_vcomm(item.0) {
                        assert(groups@[k]@ == before[k]@.push(v as u32));
                        if j < before[k]@.len() {
                            assert(before[k]@[i] < before[k]@[j]);
                        } else {
                            assert(before[k]@[i] < v);
                        }
                    } else {
                        assert(groups@[k] == before[k]);
                    }
                }
                assert forall|k: int, i: int| 0 <= k < count && 0 <= i < groups@[k]@.len() implies #[trigger] groups@[k]@[i] < v + 1 by {
                    if !item_is_giant(item.0) && k == item_vcomm(item.0) {
                        assert(groups@[k]@ == before[k]@.push(v as u32));
                        if i < before[k]@.len() {
                            assert(before[k]@[i] < v);
                        }
                    } else {
                        assert(groups@[k] == before[k]);
                    }
                }
            }
            v = v + 1;
        }
        groups
    }

    /// Appends a giant vertex, in a new community of its own, and returns its id.
    /// `VertexIdsExhausted` when no id is left for the vertex or the community.
    pub fn add_giant_vertex(&mut self) -> (r: Result<VId, IndexError>)
        ensures
            old(self).vertex_array@.len() >= u32::MAX || old(self).community_list@.len() >= u32::MAX
                <==> r is Err,
            r matches Ok(vid) ==> {
                &&& vid == old(self).vertex_array@.len()
                &&& final(self).vertex_array@ == old(self).vertex_array@.push(VertexIndexItem(GIANT_FLAG))
                &&& lists_view(final(self).community_list@) == lists_view(old(self).community_list@).push(seq![vid])
                &&& final(self).community_map@ == old(self).community_map@.push(
                    old(self).community_list@.len() as u32,
                )
            },
            r is Err ==> *final(self) == *old(self),
    {
        if self.vertex_array.len() >= u32::MAX as usize || self.community_list.len() >= u32::MAX as usize {
            return Err(IndexError::VertexIdsExhausted);
        }
        self.vertex_array.push(VertexIndexItem::giant());
        let new_vertex_id = (self.vertex_array.len() - 1) as VId;
        let mut members: Vec<VId> = Vec::new();
        members.push(new_vertex_id);
        let ghost before = self.community_list@;
        let new_community = self.community_list.len() as CommId;
        self.community_list.push(members);
        assert(lists_view(self.community_list@) =~= lists_view(before).push(seq![new_vertex_id]));
        self.community_map.push(new_community);
        Ok(new_vertex_id)
    }

    /// The vertices of `vertex_id`'s community, in stored order; `None` for a vertex that
    /// does not exist (or whose community is not listed).
    pub fn community_search(&self, vertex_id: VId) -> (r: Option<Vec<VId>>)
        ensures
            r is Some <==> vertex_id < self.community_map@.len() && self.community_map@[vertex_id as int]
                < self.community_list@.len(),
            r matches Some(members) ==> members@ == self.community_list@[self.community_map@[vertex_id as int] as int]@,
    {
        if vertex_id as usize >= self.community_map.len() {
            return None;
        }
        let comm = self.community_map[vertex_id as usize] as usize;
        if comm >= self.community_list.len() {
            return None;
        }
        Some(vstd::slice::slice_to_vec(self.community_list[comm].as_slice()))
    }

    /// All communities, each with its vertices.
    pub fn community_detection(&self) -> (r: Vec<Vec<VId>>)
        ensures
            lists_view(r@) == lists_view(self.community_list@),
    {
        copy_lists(&self.community_list)
    }

    /// Whether `vertex_id` is giant; `None` for a vertex that does not exist.
    pub fn is_giant(&self, vertex_id: VId) -> (r: Option<bool>)
        ensures
            r is Some <==> vertex_id < self.vertex_array@.len(),
            r matches Some(b) ==> b == item_is_giant(self.vertex_array@[vertex_id as int].0),
    {
        if vertex_id as usize >= self.vertex_array.len() {
            return None;
        }
        Some(self.vertex_array[vertex_id as usize].is_giant())
    }
}

impl VertexIndex {
    /// Builds the index of a graph: vertices of degree at least `giant_vertex_boundary` are
    /// giant; the others are normal, in the virtual community that partitioning the
    /// communities by packed size against `giant_community_boundary` gives theirs, at page
    /// 0 and offset 0 until buckets are built. Also returns the giant vertices, ascending.
    pub fn build_from_graph(
        graph: &mut CsrGraph,
        giant_vertex_boundary: usize,
        giant_community_boundary: usize,
    ) -> (r: Result<(Self, Vec<VId>), IndexError>)
        requires
            old(graph).wf(),
            4 * (old(graph).neighbors@.len() + old(graph).num_vertices) <= usize::MAX,
        ensures
            final(graph).wf(),
            final(graph).community_map == old(graph).community_map,
            final(graph).offsets == old(graph).offsets,
            final(graph).neighbors == old(graph).neighbors,
            final(graph).num_vertices == old(graph).num_vertices,
            ({
                let g = *old(graph);
                let sizes = Seq::new((g.max_comm_id + 1) as nat, |c: int| comm_size(g, giant_vertex_boundary, c, g.num_vertices as int) as usize);
                giants_before(sizes, giant_community_boundary, sizes.len() as int) + smalls_before(
                    sizes,
                    giant_community_boundary,
                    sizes.len() as int,
                ) <= MAX_VIRTUAL_COMMS ==> r is Ok
            }),
            r matches Ok((index, giants)) ==> {
                let g = *old(graph);
                let n = g.num_vertices as int;
                let sizes = Seq::new((g.max_comm_id + 1) as nat, |c: int| comm_size(g, giant_vertex_boundary, c, n) as usize);
                &&& index.giant_vertex_boundary == giant_vertex_boundary
                &&& index.giant_community_boundary == giant_community_boundary
                &&& index.vertex_array@.len() == n
                &&& index.vertex_degree@.len() == n
                &&& index.community_map@ == g.community_map@
                &&& is_community_list(lists_view(index.community_list@), g.community_map@, g.max_comm_id)
                &&& forall|v: int| 0 <= v < n ==> #[trigger] index.vertex_degree@[v] == g.adj(v).len() as u32
                &&& forall|v: int| 0 <= v < n ==> (item_is_giant(#[trigger] index.vertex_array@[v].0)
                    <==> g.adj(v).len() >= giant_vertex_boundary)
                &&& exists|assign: Seq<u16>| #![trigger partitioned(sizes, giant_community_boundary, assign)]
                    partitioned(sizes, giant_community_boundary, assign) && forall|v: int|
                    0 <= v < n && !item_is_giant(#[trigger] index.vertex_array@[v].0) ==> index.vertex_array@[v].0
                        == item_pack(assign[g.community_map@[v] as int], 0, 0)
                &&& forall|i: int, j: int| 0 <= i < j < giants@.len() ==> giants@[i] < giants@[j]
                &&& forall|x: u32| #[trigger] giants@.contains(x) <==> (x < n && g.adj(x as int).len() >= giant_vertex_boundary)
            },
    {
        let ghost g0 = *graph;
        let n = graph.num_vertices();
        let community_list = copy_lists(graph.get_community_structure());
        let num_communities = graph.max_comm_id as usize + 1;
        let ghost g = *graph;
        assert(g.adj(0) == g0.adj(0));
        let mut vertex_degree: Vec<u32> = Vec::new();
        let mut is_giant_vertex: Vec<bool> = Vec::new();
        let mut giant_vertices: Vec<VId> = Vec::new();
        let mut community_sizes: Vec<usize> = Vec::new();
        let mut c: usize = 0;
        while c < num_communities
            invariant
                c <= num_communities,
                community_sizes@.len() == c,
                forall|k: int| 0 <= k < c ==> #[trigger] community_sizes@[k] == 0,
            decreases num_communities - c,
        {
            community_sizes.push(0);
            c = c + 1;
        }
        let mut v: usize = 0;
        while v < n
            invariant
                g == *graph,
                g.wf(),
                n == g.num_vertices,
                4 * (g.neighbors@.len() + n) <= usize::MAX,
                num_communities == g.max_comm_id + 1,
                v <= n,
                vertex_degree@.len() == v,
                is_giant_vertex@.len() == v,
                community_sizes@.len() == num_communities,
                forall|k: int| 0 <= k < v ==> #[trigger] vertex_degree@[k] == g.adj(k).len() as u32,
                forall|k: int| 0 <= k < v ==> #[trigger] is_giant_vertex@[k] == (g.adj(k).len() >= giant_vertex_boundary),
                forall|k: int| 0 <= k < num_communities ==> #[trigger] community_sizes@[k] == comm_size(g, giant_vertex_boundary, k, v as int),
                forall|k: int| 0 <= k < num_communities ==> #[trigger] comm_size(g, giant_vertex_boundary, k, v as int) <= 4 * (g.offsets@[v as int] + v),
                forall|i: int, j: int| 0 <= i < j < giant_vertices@.len() ==> giant_vertices@[i] < giant_vertices@[j],
                forall|i: int| 0 <= i < giant_vertices@.len() ==> giant_vertices@[i] < v,
                forall|x: u32| #[trigger] giant_vertices@.contains(x) <==> (x < v && g.adj(x as int).len() >= giant_vertex_boundary),
            decreases n - v,
        {
            let degree = graph.offsets[v + 1] - graph.offsets[v];
            let comm = graph.community_map[v] as usize;
            proof {
                assert(g.offsets@[v as int] <= g.offsets@[v + 1]);
                assert(g.offsets@[v + 1] <= g.offsets@[n as int]);
                assert(g.adj(v as int).len() == degree);
            }
            vertex_degree.push(degree as u32);
            let giant = degree >= giant_vertex_boundary;
            is_giant_vertex.push(giant);
            let ghost old_sizes = community_sizes@;
            let ghost old_giants = giant_vertices@;
            if giant {
                giant_vertices.push(v as u32);
                proof {
                    assert forall|x: u32| #[trigger] giant_vertices@.contains(x) implies (x < v + 1 && g.adj(x as int).len() >= giant_vertex_boundary) by {
                        let i = choose|i: int| 0 <= i < giant_vertices@.len() && giant_vertices@[i] == x;
                        if i < old_giants.len() {
                            assert(old_giants[i] == x);
                            assert(old_giants.contains(x));
                        }
                    }
                    assert forall|x: u32| (x < v + 1 && g.adj(x as int).len() >= giant_vertex_boundary) implies #[trigger] giant_vertices@.contains(x) by {
                        if x < v {
                            assert(old_giants.contains(x));
                            let i = choose|i: int| 0 <= i < old_giants.len() && old_giants[i] == x;
                            assert(giant_vertices@[i] == x);
                        } else {
                            assert(giant_vertices@[old_giants.len() as int] == x);
                        }
                    }
                }
            } else {
                proof {
                    assert forall|k: int| 0 <= k < num_communities implies #[trigger] comm_size(g, giant_vertex_boundary, k, v as int)
                        <= 4 * (g.offsets@[v as int] + v) by {}
                    assert(comm_size(g, giant_vertex_boundary, comm as int, v as int) + (degree + 1) * 4 <= usize::MAX);
                }
                let add = (degree + 1) * 4;
                community_sizes.set(comm, community_sizes[comm] + add);
                proof {
                    assert forall|x: u32| #[trigger] giant_vertices@.contains(x) implies (x < v + 1 && g.adj(x as int).len() >= giant_vertex_boundary) by {
                        assert(old_giants.contains(x));
                    }
                    assert forall|x: u32| (x < v + 1 && g.adj(x as int).len() >= giant_vertex_boundary) implies #[trigger] giant_vertices@.contains(x) by {
                        if x < v {
                            assert(old_giants.contains(x));
                        }
                    }
                }
            }
            proof {
                assert forall|k: int| 0 <= k < num_communities implies #[trigger] community_sizes@[k]
                    == comm_size(g, giant_vertex_boundary, k, v + 1) by {
                    assert(comm_size(g, giant_vertex_boundary, k, v + 1) == comm_size(g, giant_vertex_boundary, k, v as int)
                        + if g.community_map@[v as int] == k && g.adj(v as int).len() < giant_vertex_boundary {
                        (g.adj(v as int).len() + 1) * 4
                    } else {
                        0
                    });
                    if !giant && k == comm {
                    } else {
                        assert(community_sizes@[k] == old_sizes[k]);
                    }
                }
                assert forall|k: int| 0 <= k < num_communities implies #[trigger] comm_size(g, giant_vertex_boundary, k, v + 1)
                    <= 4 * (g.offsets@[v + 1] + v + 1) by {
                    assert(comm_size(g, giant_vertex_boundary, k, v + 1) == comm_size(g, giant_vertex_boundary, k, v as int)
                        + if g.community_map@[v as int] == k && g.adj(v as int).len() < giant_vertex_boundary {
                        (g.adj(v as int).len() + 1) * 4
                    } else {
                        0
                    });
                }
            }
            v = v + 1;
        }
        proof {
            let sizes = Seq::new((g.max_comm_id + 1) as nat, |c: int| comm_size(g, giant_vertex_boundary, c, n as int) as usize);
            assert(community_sizes@ =~= sizes);
            let sizes0 = Seq::new((g0.max_comm_id + 1) as nat, |c: int| comm_size(g0, giant_vertex_boundary, c, n as int) as usize);
            assert(sizes0 =~= community_sizes@) by {
                assert forall|c: int| 0 <= c < sizes0.len() implies sizes0[c] == community_sizes@[c] by {
                    lemma_comm_size_same(g0, g, giant_vertex_boundary, c, n as int);
                }
            }
        }
        let assign = match partition_communities(&community_sizes, giant_community_boundary) {
            Some(a) => a,
            None => {
                return Err(IndexError::TooManyVirtualCommunities);
            },
        };
        let mut vertex_array: Vec<VertexIndexItem> = Vec::new();
        let mut v: usize = 0;
        while v < n
            invariant
                g == *graph,
                g.wf(),
                n == g.num_vertices,
                num_communities == g.max_comm_id + 1,
                assign@.len() == num_communities,
                is_giant_vertex@.len() == n,
                forall|k: int| 0 <= k < n ==> #[trigger] is_giant_vertex@[k] == (g.adj(k).len() >= giant_vertex_boundary),
                partitioned(community_sizes@, giant_community_boundary, assign@),
                v <= n,
                vertex_array@.len() == v,
                forall|k: int| 0 <= k < v ==> (item_is_giant(#[trigger] vertex_array@[k].0) <==> g.adj(k).len() >= giant_vertex_boundary),
                forall|k: int| 0 <= k < v && !item_is_giant(#[trigger] vertex_array@[k].0) ==> vertex_array@[k].0
                    == item_pack(assign@[g.community_map@[k] as int], 0, 0),
            decreases n - v,
        {
            if is_giant_vertex[v] {
                vertex_array.push(VertexIndexItem::giant());
            } else {
                let comm = graph.community_map[v] as usize;
                let vcomm = assign[comm];
                proof {
                    lemma_assigned_fits(community_sizes@, giant_community_boundary, assign@, comm as int);
                }
                vertex_array.push(VertexIndexItem::normal(vcomm, 0, 0));
            }
            v = v + 1;
        }
        proof {
            let sizes = Seq::new((g0.max_comm_id + 1) as nat, |c: int| comm_size(g0, giant_vertex_boundary, c, n as int) as usize);
            assert(g0.adj(0) == g.adj(0));
            assert(sizes =~= community_sizes@) by {
                assert forall|c: int| 0 <= c < sizes.len() implies sizes[c] == community_sizes@[c] by {
                    lemma_comm_size_same(g0, g, giant_vertex_boundary, c, n as int);
                }
            }
        }
        let index = VertexIndex {
            giant_vertex_boundary,
            giant_community_boundary,
            vertex_array,
            community_map: vstd::slice::slice_to_vec(graph.community_map.as_slice()),
            community_list,
            vertex_degree,
        };
        Ok((index, giant_vertices))
    }
}

impl VertexIndex {
    /// What warming the caches reads: for each virtual community, the largest page that a
    /// normal vertex names (`None` when none names it), and the giant vertices, ascending.
    pub fn warm_up_plan(&self) -> (r: (Vec<Option<u32>>, Vec<VId>))
        requires
            self.vertex_array@.len() <= 0x1_0000_0000,
        ensures
            r.0@.len() == MAX_VIRTUAL_COMMS,
            forall|g: int| 0 <= g < MAX_VIRTUAL_COMMS ==> match #[trigger] r.0@[g] {
                Some(m) => (exists|x: int| 0 <= x < self.vertex_array@.len() && !item_is_giant(self.vertex_array@[x].0)
                    && item_vcomm(self.vertex_array@[x].0) == g && item_page(self.vertex_array@[x].0) == m)
                    && (forall|x: int| 0 <= x < self.vertex_array@.len() && !item_is_giant(self.vertex_array@[x].0)
                    && item_vcomm(self.vertex_array@[x].0) == g ==> item_page(self.vertex_array@[x].0) <= m),
                None => forall|x: int| 0 <= x < self.vertex_array@.len() && !item_is_giant(self.vertex_array@[x].0)
                    ==> item_vcomm(self.vertex_array@[x].0) != g,
            },
            forall|i: int, j: int| 0 <= i < j < r.1@.len() ==> r.1@[i] < r.1@[j],
            forall|x: u32| #[trigger] r.1@.contains(x) <==> (x < self.vertex_array@.len() && item_is_giant(self.vertex_array@[x as int].0)),
    {
        let n = self.vertex_array.len();
        let ghost arr = self.vertex_array@;
        let mut bounds: Vec<Option<u32>> = Vec::new();
        let mut g: usize = 0;
        while g < MAX_VIRTUAL_COMMS
            invariant
                g <= MAX_VIRTUAL_COMMS,
                bounds@.len() == g,
                forall|k: int| 0 <= k < g ==> #[trigger] bounds@[k] is None,
            decreases MAX_VIRTUAL_COMMS - g,
        {
            bounds.push(None);
            g = g + 1;
        }
        let mut giants: Vec<VId> = Vec::new();
        let mut v: usize = 0;
        while v < n
            invariant
                n == arr.len(),
                arr == self.vertex_array@,
                n <= 0x1_0000_0000,
                v <= n,
                bounds@.len() == MAX_VIRTUAL_COMMS,
                forall|g: int| 0 <= g < MAX_VIRTUAL_COMMS ==> match #[trigger] bounds@[g] {
                    Some(m) => (exists|x: int| 0 <= x < v && !item_is_giant(arr[x].0) && item_vcomm(arr[x].0) == g
                        && item_page(arr[x].0) == m) && (forall|x: int| 0 <= x < v && !item_is_giant(arr[x].0)
                        && item_vcomm(arr[x].0) == g ==> item_page(arr[x].0) <= m),
                    None => forall|x: int| 0 <= x < v && !item_is_giant(arr[x].0) ==> item_vcomm(arr[x].0) != g,
                },
                forall|i: int, j: int| 0 <= i < j < giants@.len() ==> giants@[i] < giants@[j],
                forall|i: int| 0 <= i < giants@.len() ==> giants@[i] < v,
                forall|x: u32| #[trigger] giants@.contains(x) <==> (x < v && item_is_giant(arr[x as int].0)),
            decreases n - v,
        {
            let item = self.vertex_array[v];
            let ghost old_bounds = bounds@;
            let ghost old_giants = giants@;
            if item.is_normal() {
                let vc = item.virtual_comm_id() as usize;
                let page = item.page_id();
                proof {
                    lemma_vcomm_bound(item.0);
                }
                let cur = bounds[vc];
                let new_bound = match cur {
                    Some(m) => if page > m { page } else { m },
                    None => page,
                };
                bounds.set(vc, Some(new_bound));
                proof {
                    assert forall|g: int| 0 <= g < MAX_VIRTUAL_COMMS implies match #[trigger] bounds@[g] {
                        Some(m) => (exists|x: int| 0 <= x < v + 1 && !item_is_giant(arr[x].0) && item_vcomm(arr[x].0) == g
                            && item_page(arr[x].0) == m) && (forall|x: int| 0 <= x < v + 1 && !item_is_giant(arr[x].0)
                            && item_vcomm(arr[x].0) == g ==> item_page(arr[x].0) <= m),
                        None => forall|x: int| 0 <= x < v + 1 && !item_is_giant(arr[x].0) ==> item_vcomm(arr[x].0) != g,
                    } by {
                        if g == vc {
                            match cur {
                                Some(m) => {
                                    assert(old_bounds[g] == Some(m));
                                    if page <= m {
                                        let x = choose|x: int| 0 <= x < v && !item_is_giant(arr[x].0) && item_vcomm(arr[x].0) == g
                                            && item_page(arr[x].0) == m;
                                        assert(0 <= x < v + 1);
                                    } else {
                                        assert(arr[v as int] == item);
                                    }
                                },
                                None => {
                                    assert(old_bounds[g] is None);
                                    assert(arr[v as int] == item);
                                },
                            }
                        } else {
                            assert(bounds@[g] == old_bounds[g]);
                            assert(arr[v as int] == item);
                            match old_bounds[g] {
                                Some(m) => {
                                    let x = choose|x: int| 0 <= x < v && !item_is_giant(arr[x].0) && item_vcomm(arr[x].0) == g
                                        && item_page(arr[x].0) == m;
                                    assert(0 <= x < v + 1);
                                },
                                None => {},
                            }
                        }
                    }
                    assert(giants@ == old_giants);
                    assert(!item_is_giant(arr[v as int].0));
                    assert forall|x: u32| #[trigger] giants@.contains(x) <==> (x < v + 1 && item_is_giant(arr[x as int].0)) by {
                        if x < v {
                            assert(old_giants.contains(x) <==> (x < v && item_is_giant(arr[x as int].0)));
                        } else if x == v {
                            assert(x as int == v as int);
                            assert(!item_is_giant(arr[x as int].0));
                            assert(!old_giants.contains(x));
                        } else {
                            assert(!old_giants.contains(x));
                        }
                    }
                }
            } else {
                giants.push(v as u32);
                proof {
                    assert(arr[v as int] == item);
                    assert(item_is_giant(arr[v as int].0));
                    assert forall|x: u32| #[trigger] giants@.contains(x) implies (x < v + 1 && item_is_giant(arr[x as int].0)) by {
                        let i = choose|i: int| 0 <= i < giants@.len() && giants@[i] == x;
                        if i < old_giants.len() {
                            assert(old_giants[i] == x);
                            assert(old_giants.contains(x));
                        }
                    }
                    assert forall|x: u32| (x < v + 1 && item_is_giant(arr[x as int].0)) implies #[trigger] giants@.contains(x) by {
                        if x < v {
                            assert(old_giants.contains(x));
                            let i = choose|i: int| 0 <= i < old_giants.len() && old_giants[i] == x;
                            assert(giants@[i] == x);
                        } else {
                            assert(giants@[old_giants.len() as int] == x);
                        }
                    }
                    assert forall|g: int| 0 <= g < MAX_VIRTUAL_COMMS implies match #[trigger] bounds@[g] {
                        Some(m) => (exists|x: int| 0 <= x < v + 1 && !item_is_giant(arr[x].0) && item_vcomm(arr[x].0) == g
                            && item_page(arr[x].0) == m) && (forall|x: int| 0 <= x < v + 1 && !item_is_giant(arr[x].0)
                            && item_vcomm(arr[x].0) == g ==> item_page(arr[x].0) <= m),
                        None => forall|x: int| 0 <= x < v + 1 && !item_is_giant(arr[x].0) ==> item_vcomm(arr[x].0) != g,
                    } by {
                        match bounds@[g] {
                            Some(m) => {
                                let x = choose|x: int| 0 <= x < v && !item_is_giant(arr[x].0) && item_vcomm(arr[x].0) == g
                                    && item_page(arr[x].0) == m;
                                assert(0 <= x < v + 1);
                            },
                            None => {},
                        }
                    }
                }
            }
            v = v + 1;
        }
        (bounds, giants)
    }
}

/// Two graphs with the same CSR arrays and communities give the same community sizes.
proof fn lemma_comm_size_same(a: CsrGraph, b: CsrGraph, giant_vertex_boundary: usize, c: int, k: int)
    requires
        a.offsets == b.offsets,
        a.neighbors == b.neighbors,
        a.community_map == b.community_map,
    ensures
        comm_size(a, giant_vertex_boundary, c, k) == comm_size(b, giant_vertex_boundary, c, k),
    decreases k,
{
    if k > 0 {
        lemma_comm_size_same(a, b, giant_vertex_boundary, c, k - 1);
    }
}

/// Virtual community ids fit in 15 bits.
proof fn lemma_assigned_fits(sizes: Seq<usize>, boundary: usize, assign: Seq<u16>, c: int)
    requires
        partitioned(sizes, boundary, assign),
        0 <= c < sizes.len(),
    ensures
        assign[c] < MAX_VIRTUAL_COMMS,
{
    crate::partition::lemma_assign_below(sizes, boundary, assign, c);
}

proof fn lemma_vcomm_bound(x: u64)
    ensures
        item_vcomm(x) < 0x8000,
{
    assert(((x >> 48u64) & 0x7fffu64) < 0x8000) by (bit_vector);
}

} // verus!
