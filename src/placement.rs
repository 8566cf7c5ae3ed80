use vstd::prelude::*;

use crate::block::builder::fits;
use crate::bucket::builder::{meta_finds, BucketBuilder};
use crate::bucket::{
    footer_block_size, footer_meta_offset, footer_ok, metas_of, meta_region, page_bytes, BucketError, VertexMeta,
};
use crate::codec::read_be32;
use crate::graph::CsrGraph;
use crate::types::{VId, VirtualCommId};
use crate::vertex_index::{item_is_giant, item_offset, item_page, item_vcomm, VertexIndex, VertexIndexItem};

verus! {

/// Whether the bucket bytes `b` (pages of `block_size` bytes) hold vertex `v` with neighbors
/// `ns` at `offset` of page `page`, a page that lies before the vertex-meta table.
pub open spec fn bucket_holds(b: Seq<u8>, block_size: int, page: u32, offset: u16, v: u32, ns: Seq<u32>) -> bool {
    &&& footer_ok(b)
    &&& footer_block_size(b) == block_size
    &&& page * block_size < footer_meta_offset(b)
    &&& meta_finds(
        page_bytes(b, page as int, block_size, footer_meta_offset(b)),
        VertexMeta { vertex_id: v, page_id: page, offset_inner: offset },
        v,
        ns,
    )
}

/// Each record keeps its kind and virtual community, and giant records stay as they are.
pub open spec fn records_kept(before: Seq<VertexIndexItem>, after: Seq<VertexIndexItem>) -> bool {
    &&& after.len() == before.len()
    &&& forall|v: int| 0 <= v < before.len() ==> {
        &&& item_is_giant(#[trigger] after[v].0) == item_is_giant(before[v].0)
        &&& item_is_giant(before[v].0) ==> after[v] == before[v]
        &&& item_vcomm(after[v].0) == item_vcomm(before[v].0)
    }
}

/// Normal records of virtual communities from `g` on are as they were.
pub open spec fn untouched_from(before: Seq<VertexIndexItem>, after: Seq<VertexIndexItem>, g: int) -> bool {
    forall|v: int| 0 <= v < before.len() && !item_is_giant(before[v].0) && item_vcomm(before[v].0) >= g
        ==> #[trigger] after[v] == before[v]
}

/// Every normal record of `arr` below `n` names a page of its virtual community's bucket
/// among `buckets` that holds the vertex, with its neighbors in `graph`, at the named offset.
pub open spec fn all_placed(graph: CsrGraph, arr: Seq<VertexIndexItem>, buckets: Seq<(VirtualCommId, Vec<u8>)>, block_size: int) -> bool {
    forall|v: int| 0 <= v < graph.num_vertices && !item_is_giant(#[trigger] arr[v].0)
        ==> exists|b: int| 0 <= b < buckets.len() && buckets[b].0 == item_vcomm(arr[v].0) && bucket_holds(
            buckets[b].1@,
            block_size,
            item_page(arr[v].0),
            item_offset(arr[v].0),
            v as u32,
            graph.adj(v),
        )
}

proof fn lemma_ascending_bound(s: Seq<u32>, k: int)
    requires
        forall|i: int, j: int| 0 <= i < j < s.len() ==> s[i] < s[j],
        0 <= k < s.len(),
    ensures
        s[k] >= k,
    decreases k,
{
    if k > 0 {
        lemma_ascending_bound(s, k - 1);
    }
}

/// Builds the bucket of `members`, in their order: its bytes and, for each member, the
/// vertex-meta entry that says where it went.
fn build_one_bucket(graph: &CsrGraph, members: &Vec<VId>, id: VirtualCommId, block_size: usize) -> (r: Result<(Vec<u8>, Vec<VertexMeta>), BucketError>)
    requires
        graph.wf(),
        block_size >= 4,
        forall|k: int| 0 <= k < members@.len() ==> #[trigger] members@[k] < graph.num_vertices,
        forall|k: int| 0 <= k < members@.len() ==> graph.adj(#[trigger] members@[k] as int).len() <= 0xffff
            && fits(1, graph.adj(members@[k] as int).len() as int, block_size as int),
    ensures
        r matches Ok((bytes, metas)) ==> {
            &&& metas@.len() == members@.len()
            &&& forall|k: int| 0 <= k < members@.len() ==> {
                let m = #[trigger] metas@[k];
                &&& m.vertex_id == members@[k]
                &&& bucket_holds(bytes@, block_size as int, m.page_id, m.offset_inner, members@[k], graph.adj(members@[k] as int))
            }
        },
        (members@.len() + 1) * (4 * block_size + 10) + 116 <= u32::MAX ==> r is Ok,
{
    let mut bb = BucketBuilder::new(block_size);
    let mut i: usize = 0;
    assert(bb.added@ =~= Seq::new(0 as nat, |k: int| (members@[k], graph.adj(members@[k] as int))));
    while i < members.len()
        invariant
            graph.wf(),
            block_size >= 4,
            forall|k: int| 0 <= k < members@.len() ==> #[trigger] members@[k] < graph.num_vertices,
            forall|k: int| 0 <= k < members@.len() ==> graph.adj(#[trigger] members@[k] as int).len() <= 0xffff
                && fits(1, graph.adj(members@[k] as int).len() as int, block_size as int),
            i <= members@.len(),
            bb.wf(),
            bb.block_size == block_size,
            bb.added@ == Seq::new(i as nat, |k: int| (members@[k], graph.adj(members@[k] as int))),
            4 * bb.edge_hashes@.len() <= i * block_size,
        decreases members@.len() - i,
    {
        let v = members[i];
        let ns = graph.get_neighbor_iter(v);
        let ghost page = bb.current_page_id;
        let ghost dlen = bb.data@.len();
        let ghost elen = bb.edge_hashes@.len();
        match bb.add(v, ns) {
            Ok(()) => {},
            Err(e) => {
                proof {
                    if (members@.len() + 1) * (4 * block_size + 10) + 116 <= u32::MAX {
                        assert(dlen + block_size <= usize::MAX && page < u32::MAX) by (nonlinear_arith)
                            requires
                                dlen == page * block_size,
                                page <= i,
                                i < members@.len(),
                                (members@.len() + 1) * (4 * block_size + 10) + 116 <= u32::MAX,
                                u32::MAX <= usize::MAX,
                        ;
                    }
                }
                return Err(e);
            },
        }
        proof {
            assert(4 * bb.edge_hashes@.len() <= (i + 1) * block_size) by (nonlinear_arith)
                requires
                    bb.edge_hashes@.len() == elen + ns@.len(),
                    4 * elen <= i * block_size,
                    12 + 4 * ns@.len() <= block_size,
            ;
        }
        assert(bb.added@ =~= Seq::new((i + 1) as nat, |k: int| (members@[k], graph.adj(members@[k] as int))));
        i = i + 1;
    }
    let ghost added = bb.added@;
    let ghost page = bb.current_page_id;
    let ghost dlen = bb.data@.len();
    let ghost elen = bb.edge_hashes@.len();
    let bytes = match bb.build(id) {
        Ok(b) => b,
        Err(e) => {
            proof {
                if (members@.len() + 1) * (4 * block_size + 10) + 116 <= u32::MAX {
                    assert(added.len() == members@.len());
                    assert(page < u32::MAX && dlen + block_size + 16 + 10 * members@.len() + 12 * elen + 100 <= u32::MAX)
                        by (nonlinear_arith)
                        requires
                            dlen == page * block_size,
                            page <= members@.len(),
                            4 * elen <= members@.len() * block_size,
                            (members@.len() + 1) * (4 * block_size + 10) + 116 <= u32::MAX,
                    ;
                }
            }
            return Err(e);
        },
    };
    let len = bytes.len();
    let meta_offset = read_be32(bytes.as_slice(), len - 8) as usize;
    let bloom_size = read_be32(bytes.as_slice(), len - 4) as usize;
    let region = vstd::slice::slice_subrange(bytes.as_slice(), meta_offset, len - 12 - bloom_size);
    let metas = match VertexMeta::decode(region) {
        Ok(ms) => ms,
        Err(e) => {
            return Err(e);
        },
    };
    proof {
        assert forall|k: int| 0 <= k < members@.len() implies {
            let m = #[trigger] metas@[k];
            &&& m.vertex_id == members@[k]
            &&& bucket_holds(bytes@, block_size as int, m.page_id, m.offset_inner, members@[k], graph.adj(members@[k] as int))
        } by {
            let m = metas@[k];
            assert(metas_of(meta_region(bytes@))[k] == m);
            assert(added[k] == (members@[k], graph.adj(members@[k] as int)));
            assert(m == VertexMeta { vertex_id: members@[k], page_id: m.page_id, offset_inner: m.offset_inner });
        }
    }
    Ok((bytes, metas))
}

/// Builds the bucket of every virtual community and points each normal record of the index
/// at its vertex's place: afterwards the bucket of a normal vertex's virtual community holds
/// the vertex, with exactly its neighbors, at the record's page and offset. Giant records,
/// every record's virtual community, and the other fields of the index stay as they were.
pub fn build_buckets(graph: &CsrGraph, index: &mut VertexIndex, block_size: usize) -> (r: Result<Vec<(VirtualCommId, Vec<u8>)>, BucketError>)
    requires
        graph.wf(),
        block_size >= 4,
        old(index).vertex_array@.len() == graph.num_vertices,
        forall|v: int| 0 <= v < graph.num_vertices && !item_is_giant(#[trigger] old(index).vertex_array@[v].0)
            ==> graph.adj(v).len() <= 0xffff && fits(1, graph.adj(v).len() as int, block_size as int),
    ensures
        final(index).vertex_array@.len() == old(index).vertex_array@.len(),
        final(index).giant_vertex_boundary == old(index).giant_vertex_boundary,
        final(index).giant_community_boundary == old(index).giant_community_boundary,
        final(index).community_map == old(index).community_map,
        final(index).community_list == old(index).community_list,
        final(index).vertex_degree == old(index).vertex_degree,
        records_kept(old(index).vertex_array@, final(index).vertex_array@),
        r matches Ok(buckets) ==> all_placed(*graph, final(index).vertex_array@, buckets@, block_size as int),
        (graph.num_vertices + 1) * (4 * block_size + 10) + 116 <= u32::MAX ==> r is Ok,
{
    let n = graph.num_vertices;
    let groups = index.get_virtual_community_list_for_test();
    let ghost old_arr = index.vertex_array@;
    let mut out: Vec<(VirtualCommId, Vec<u8>)> = Vec::new();
    let mut g: usize = 0;
    while g < groups.len()
        invariant
            graph.wf(),
            block_size >= 4,
            n == graph.num_vertices,
            old_arr == old(index).vertex_array@,
            old_arr.len() == n,
            index.vertex_array@.len() == n,
            index.giant_vertex_boundary == old(index).giant_vertex_boundary,
            index.giant_community_boundary == old(index).giant_community_boundary,
            index.community_map == old(index).community_map,
            index.community_list == old(index).community_list,
            index.vertex_degree == old(index).vertex_degree,
            forall|v: int| 0 <= v < n && !item_is_giant(#[trigger] old_arr[v].0)
                ==> graph.adj(v).len() <= 0xffff && fits(1, graph.adj(v).len() as int, block_size as int),
            groups@.len() <= 0x8000,
            forall|k: int, x: u32|
                0 <= k < groups@.len() ==> (#[trigger] groups@[k]@.contains(x) <==> (x < n && !item_is_giant(old_arr[x as int].0)
                    && item_vcomm(old_arr[x as int].0) == k)),
            forall|x: int| 0 <= x < n && !item_is_giant(#[trigger] old_arr[x].0) ==> item_vcomm(old_arr[x].0) < groups@.len(),
            forall|k: int, i: int, j: int| 0 <= k < groups@.len() && 0 <= i < j < groups@[k]@.len() ==> #[trigger] groups@[k]@[i] < #[trigger] groups@[k]@[j],
            g <= groups@.len(),
            records_kept(old_arr, index.vertex_array@),
            untouched_from(old_arr, index.vertex_array@, g as int),
            forall|b: int| 0 <= b < out@.len() ==> (#[trigger] out@[b]).0 < g,
            forall|v: int| 0 <= v < n && !item_is_giant(#[trigger] index.vertex_array@[v].0) && item_vcomm(index.vertex_array@[v].0) < g
                ==> exists|b: int| 0 <= b < out@.len() && out@[b].0 == item_vcomm(index.vertex_array@[v].0) && bucket_holds(
                    out@[b].1@,
                    block_size as int,
                    item_page(index.vertex_array@[v].0),
                    item_offset(index.vertex_array@[v].0),
                    v as u32,
                    graph.adj(v),
                ),

        decreases groups@.len() - g,
    {
        let members = &groups[g];
        proof {
            assert forall|k: int| 0 <= k < members@.len() implies #[trigger] members@[k] < n && !item_is_giant(old_arr[members@[k] as int].0)
                && item_vcomm(old_arr[members@[k] as int].0) == g by {
                assert(groups@[g as int]@.contains(members@[k]));
            }
            if members@.len() > 0 {
                lemma_ascending_bound(members@, members@.len() - 1);
            }
        }
        if members.len() > 0 {
            let ghost arr0 = index.vertex_array@;
            let (bytes, metas) = match build_one_bucket(graph, members, g as u16, block_size) {
                Ok(x) => x,
                Err(e) => {
                    proof {
                        if (n + 1) * (4 * block_size + 10) + 116 <= u32::MAX {
                            assert((members@.len() + 1) * (4 * block_size + 10) + 116 <= u32::MAX) by (nonlinear_arith)
                                requires
                                    members@.len() <= n,
                                    (n + 1) * (4 * block_size + 10) + 116 <= u32::MAX,
                            ;
                        }
                        assert(index.vertex_array@ == arr0);
                        assert(index.vertex_array@.len() == old(index).vertex_array@.len());
                        assert forall|v: int| 0 <= v < old_arr.len() implies {
                            &&& item_is_giant(#[trigger] index.vertex_array@[v].0) == item_is_giant(old_arr[v].0)
                            &&& item_is_giant(old_arr[v].0) ==> index.vertex_array@[v] == old_arr[v]
                            &&& item_vcomm(index.vertex_array@[v].0) == item_vcomm(old_arr[v].0)
                        } by {
                            assert(item_is_giant(arr0[v].0) == item_is_giant(old_arr[v].0));
                        }
                        assert(records_kept(old_arr, index.vertex_array@));
                    }
                    return Err(e);
                },
            };
            proof {
                assert forall|v: int| 0 <= v < n implies item_is_giant(#[trigger] arr0[v].0) == item_is_giant(old_arr[v].0)
                    && item_vcomm(arr0[v].0) == item_vcomm(old_arr[v].0)
                    && (item_is_giant(old_arr[v].0) ==> arr0[v] == old_arr[v])
                    && (!item_is_giant(old_arr[v].0) && item_vcomm(old_arr[v].0) >= g ==> arr0[v] == old_arr[v]) by {
                    assert(item_is_giant(index.vertex_array@[v].0) == item_is_giant(old_arr[v].0));
                }
            }
            let mut j: usize = 0;
            while j < metas.len()
                invariant
                    n == graph.num_vertices,
                    index.vertex_array@.len() == n,
                    metas@.len() == members@.len(),
                    j <= metas@.len(),
                    index.giant_vertex_boundary == old(index).giant_vertex_boundary,
                    index.giant_community_boundary == old(index).giant_community_boundary,
                    index.community_map == old(index).community_map,
                    index.community_list == old(index).community_list,
                    index.vertex_degree == old(index).vertex_degree,
                    forall|k: int| 0 <= k < members@.len() ==> (#[trigger] metas@[k]).vertex_id == members@[k],
                    forall|k: int| 0 <= k < members@.len() ==> #[trigger] members@[k] < n && !item_is_giant(old_arr[members@[k] as int].0)
                        && item_vcomm(old_arr[members@[k] as int].0) == g,
                    forall|a: int, b: int| 0 <= a < b < members@.len() ==> #[trigger] members@[a] < #[trigger] members@[b],
                    forall|v: int| 0 <= v < n ==> {
                        &&& item_is_giant(#[trigger] index.vertex_array@[v].0) == item_is_giant(arr0[v].0)
                        &&& item_vcomm(index.vertex_array@[v].0) == item_vcomm(arr0[v].0)
                        &&& (item_is_giant(old_arr[v].0) || item_vcomm(old_arr[v].0) != g) ==> index.vertex_array@[v] == arr0[v]
                    },
                    forall|v: int| 0 <= v < n ==> item_is_giant(#[trigger] arr0[v].0) == item_is_giant(old_arr[v].0)
                        && item_vcomm(arr0[v].0) == item_vcomm(old_arr[v].0)
                        && (item_is_giant(old_arr[v].0) ==> arr0[v] == old_arr[v])
                        && (!item_is_giant(old_arr[v].0) && item_vcomm(old_arr[v].0) >= g ==> arr0[v] == old_arr[v]),
                    forall|k: int| 0 <= k < j ==> {
                        let it = #[trigger] index.vertex_array@[members@[k] as int];
                        item_page(it.0) == metas@[k].page_id && item_offset(it.0) == metas@[k].offset_inner
                    },
                decreases metas@.len() - j,
            {
                let m = metas[j];
                let vid = m.vertex_id as usize;
                let ghost before = index.vertex_array@;
                let mut item: VertexIndexItem = index.vertex_array[vid];
                item.set_page_id(m.page_id);
                item.set_offset(m.offset_inner);
                index.vertex_array.set(vid, item);
                proof {
                    assert forall|k: int| 0 <= k < j + 1 implies {
                        let it = #[trigger] index.vertex_array@[members@[k] as int];
                        item_page(it.0) == metas@[k].page_id && item_offset(it.0) == metas@[k].offset_inner
                    } by {
                        if k < j {
                            assert(members@[k] != members@[j as int]);
                            assert(index.vertex_array@[members@[k] as int] == before[members@[k] as int]);
                        }
                    }
                    assert forall|v: int| 0 <= v < n implies {
                        &&& item_is_giant(#[trigger] index.vertex_array@[v].0) == item_is_giant(arr0[v].0)
                        &&& item_vcomm(index.vertex_array@[v].0) == item_vcomm(arr0[v].0)
                        &&& (item_is_giant(old_arr[v].0) || item_vcomm(old_arr[v].0) != g) ==> index.vertex_array@[v] == arr0[v]
                    } by {
                        if v != vid {
                            assert(index.vertex_array@[v] == before[v]);
                        }
                    }
                }
                j = j + 1;
            }
            let ghost arr1 = index.vertex_array@;
            let ghost out0 = out@;
            out.push((g as u16, bytes));
            proof {
                let bi = out0.len() as int;
                assert(out@[bi] == (g as u16, bytes));
                assert forall|v: int| 0 <= v < n && !item_is_giant(#[trigger] index.vertex_array@[v].0) && item_vcomm(index.vertex_array@[v].0) < g + 1
                    implies exists|b: int| 0 <= b < out@.len() && out@[b].0 == item_vcomm(index.vertex_array@[v].0) && bucket_holds(
                        out@[b].1@,
                        block_size as int,
                        item_page(index.vertex_array@[v].0),
                        item_offset(index.vertex_array@[v].0),
                        v as u32,
                        graph.adj(v),
                    ) by {
                    if item_vcomm(index.vertex_array@[v].0) < g {
                        assert(index.vertex_array@[v] == arr0[v]);
                        let b = choose|b: int| 0 <= b < out0.len() && out0[b].0 == item_vcomm(arr0[v].0) && bucket_holds(
                            out0[b].1@,
                            block_size as int,
                            item_page(arr0[v].0),
                            item_offset(arr0[v].0),
                            v as u32,
                            graph.adj(v),
                        );
                        assert(out@[b] == out0[b]);
                    } else {
                        assert(groups@[g as int]@.contains(v as u32));
                        let k = choose|k: int| 0 <= k < members@.len() && members@[k] == v as u32;
                        let m = metas@[k];
                        assert(m.vertex_id == v as u32);
                        assert(item_page(index.vertex_array@[v].0) == m.page_id);
                    }
                }
                assert forall|v: int| 0 <= v < n implies {
                    &&& item_is_giant(#[trigger] index.vertex_array@[v].0) == item_is_giant(old_arr[v].0)
                    &&& item_is_giant(old_arr[v].0) ==> index.vertex_array@[v] == old_arr[v]
                    &&& item_vcomm(index.vertex_array@[v].0) == item_vcomm(old_arr[v].0)
                    &&& (!item_is_giant(old_arr[v].0) && item_vcomm(old_arr[v].0) >= g + 1 ==> index.vertex_array@[v] == old_arr[v])
                } by {
                    assert(item_is_giant(arr0[v].0) == item_is_giant(old_arr[v].0));
                    assert(item_is_giant(index.vertex_array@[v].0) == item_is_giant(arr0[v].0));
                    if item_is_giant(old_arr[v].0) || item_vcomm(old_arr[v].0) != g {
                        assert(index.vertex_array@[v] == arr0[v]);
                    }
                    if !item_is_giant(old_arr[v].0) && item_vcomm(old_arr[v].0) >= g + 1 {
                        assert(arr0[v] == old_arr[v]);
                    }
                    if item_is_giant(old_arr[v].0) {
                        assert(arr0[v] == old_arr[v]);
                    }
                }
                assert(records_kept(old_arr, index.vertex_array@));
                assert forall|v: int| 0 <= v < old_arr.len() && !item_is_giant(old_arr[v].0) && item_vcomm(old_arr[v].0) >= g + 1
                    implies #[trigger] index.vertex_array@[v] == old_arr[v] by {
                    assert(item_is_giant(index.vertex_array@[v].0) == item_is_giant(old_arr[v].0));
                }
                assert(untouched_from(old_arr, index.vertex_array@, g + 1));
            }
        } else {
            proof {
                assert forall|v: int| 0 <= v < n && !item_is_giant(#[trigger] old_arr[v].0) implies item_vcomm(old_arr[v].0) != g by {
                    if item_vcomm(old_arr[v].0) == g {
                        assert(groups@[g as int]@.contains(v as u32));
                    }
                }
                assert forall|v: int| 0 <= v < old_arr.len() && !item_is_giant(old_arr[v].0) && item_vcomm(old_arr[v].0) >= g + 1
                    implies #[trigger] index.vertex_array@[v] == old_arr[v] by {
                    assert(item_vcomm(old_arr[v].0) >= g);
                }
                assert(untouched_from(old_arr, index.vertex_array@, g + 1));
                assert forall|v: int| 0 <= v < n && !item_is_giant(#[trigger] index.vertex_array@[v].0) && item_vcomm(index.vertex_array@[v].0) < g + 1
                    implies exists|b: int| 0 <= b < out@.len() && out@[b].0 == item_vcomm(index.vertex_array@[v].0) && bucket_holds(
                        out@[b].1@,
                        block_size as int,
                        item_page(index.vertex_array@[v].0),
                        item_offset(index.vertex_array@[v].0),
                        v as u32,
                        graph.adj(v),
                    ) by {
                    assert(item_is_giant(index.vertex_array@[v].0) == item_is_giant(old_arr[v].0));
                    assert(item_vcomm(old_arr[v].0) != g);
                }
            }
        }
        g = g + 1;
    }
    proof {
        assert forall|v: int| 0 <= v < old_arr.len() implies {
            &&& item_is_giant(#[trigger] index.vertex_array@[v].0) == item_is_giant(old_arr[v].0)
            &&& item_is_giant(old_arr[v].0) ==> index.vertex_array@[v] == old_arr[v]
            &&& item_vcomm(index.vertex_array@[v].0) == item_vcomm(old_arr[v].0)
        } by {
            assert(item_is_giant(index.vertex_array@[v].0) == item_is_giant(old_arr[v].0));
        }
        assert(records_kept(old_arr, index.vertex_array@));
        assert forall|v: int| 0 <= v < n && !item_is_giant(#[trigger] index.vertex_array@[v].0)
            implies item_vcomm(index.vertex_array@[v].0) < g by {
            assert(item_is_giant(index.vertex_array@[v].0) == item_is_giant(old_arr[v].0));
            assert(item_vcomm(old_arr[v].0) < groups@.len());
        }
        assert forall|v: int| 0 <= v < graph.num_vertices && !item_is_giant(#[trigger] index.vertex_array@[v].0)
            implies exists|b: int| 0 <= b < out@.len() && out@[b].0 == item_vcomm(index.vertex_array@[v].0) && bucket_holds(
                out@[b].1@,
                block_size as int,
                item_page(index.vertex_array@[v].0),
                item_offset(index.vertex_array@[v].0),
                v as u32,
                graph.adj(v),
            ) by {
            assert(item_vcomm(index.vertex_array@[v].0) < g);
        }
        assert(all_placed(*graph, index.vertex_array@, out@, block_size as int));
    }
    Ok(out)
}

} // verus!
