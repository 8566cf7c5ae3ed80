use vstd::prelude::*;

use crate::types::{PageId, VirtualCommId};

verus! {

/// The packed key of a cached block: the virtual community in bits 63..32 and the page
/// in bits 31..0.
pub open spec fn cache_key_of(virtual_comm_id: u16, page_id: u32) -> u64 {
    ((virtual_comm_id as u64) << 32u64) | (page_id as u64)
}

/// Key of a block in the block cache.
#[derive(Debug, Clone, Copy, PartialEq, Eq, Hash, Structural)]
pub struct CacheKey(pub u64);

impl CacheKey {
    /// Packs a virtual community and a page into a key.
    pub fn new(virtual_comm_id: VirtualCommId, page_id: PageId) -> (r: Self)
        ensures
            r.0 == cache_key_of(virtual_comm_id, page_id),
            r.0 == virtual_comm_id as int * 0x1_0000_0000 + page_id as int,
    {
        proof {
            lemma_cache_key_value(virtual_comm_id as u64, page_id as u64);
        }
        CacheKey(((virtual_comm_id as u64) << 32u64) | (page_id as u64))
    }

    /// The virtual community: bits 47..32 of the key.
    pub fn virtual_comm_id(&self) -> (r: VirtualCommId)
        ensures
            r == ((self.0 >> 32u64) & 0xffffu64) as u16,
    {
        ((self.0 >> 32u64) & 0xffffu64) as u16
    }

    /// The page: bits 31..0 of the key.
    pub fn page_id(&self) -> (r: PageId)
        ensures
            r == (self.0 & 0xffff_ffffu64) as u32,
    {
        (self.0 & 0xffff_ffffu64) as u32
    }

    /// The packed value.
    pub fn raw(&self) -> (r: u64)
        ensures
            r == self.0,
    {
        self.0
    }
}

proof fn lemma_cache_key_value(v: u64, p: u64)
    by (bit_vector)
    requires
        v < 0x10000,
        p < 0x1_0000_0000,
    ensures
        (v << 32u64) | p == v * 0x1_0000_0000 + p,
        ((((v << 32u64) | p) >> 32u64) & 0xffffu64) == v,
        (((v << 32u64) | p) & 0xffff_ffffu64) == p,
{
}

/// A key gives back the virtual community and the page it was made from.
pub proof fn lemma_cache_key_round_trip(virtual_comm_id: u16, page_id: u32)
    ensures
        ((cache_key_of(virtual_comm_id, page_id) >> 32u64) & 0xffffu64) as u16 == virtual_comm_id,
        (cache_key_of(virtual_comm_id, page_id) & 0xffff_ffffu64) as u32 == page_id,
{
    lemma_cache_key_value(virtual_comm_id as u64, page_id as u64);
}

} // verus!
