use vstd::prelude::*;

use crate::delta::{DeltaLog, DeltaOperation};
use crate::types::{EdgeList, VId, VIdList};

verus! {

/// The neighbor set after applying `ops` in order to `base`: an add inserts its neighbor,
/// a remove erases it, an operation of unknown type changes nothing.
pub open spec fn overlay(base: Set<u32>, ops: Seq<DeltaOperation>) -> Set<u32>
    decreases ops.len(),
{
    if ops.len() == 0 {
        base
    } else {
        let s = overlay(base, ops.drop_last());
        let op = ops.last();
        if op.op_type == 0 {
            s.insert(op.neighbor)
        } else if op.op_type == 1 {
            s.remove(op.neighbor)
        } else {
            s
        }
    }
}

/// Strictly ascending.
pub open spec fn strictly_sorted(s: Seq<u32>) -> bool {
    forall|i: int, j: int| 0 <= i < j < s.len() ==> s[i] < s[j]
}

/// Inserts `x` into a strictly ascending vector, unless it is there.
fn sorted_insert(v: &mut Vec<VId>, x: VId)
    requires
        strictly_sorted(old(v)@),
    ensures
        strictly_sorted(final(v)@),
        final(v)@.to_set() == old(v)@.to_set().insert(x),
{
    let mut i: usize = 0;
    while i < v.len() && v[i] < x
        invariant
            i <= v@.len(),
            forall|k: int| 0 <= k < i ==> v@[k] < x,
        decreases v@.len() - i,
    {
        i = i + 1;
    }
    if i < v.len() && v[i] == x {
        assert(v@.to_set() =~= v@.to_set().insert(x)) by {
            assert(v@.contains(x)) by {
                assert(v@[i as int] == x);
            }
        }
        return;
    }
    let ghost before = v@;
    v.insert(i, x);
    proof {
        let after = v@;
        assert forall|a: int, b: int| 0 <= a < b < after.len() implies after[a] < after[b] by {
            if b < i {
                assert(after[a] == before[a] && after[b] == before[b]);
            } else if b == i {
                assert(after[a] == before[a]);
            } else if a < i {
                assert(after[a] == before[a] && after[b] == before[b - 1]);
                assert(before[i as int] > x);
                assert(before[a] < before[i as int]);
                assert(before[i as int] <= before[b - 1]) by {
                    if i < b - 1 {
                        assert(before[i as int] < before[b - 1]);
                    }
                }
            } else if a == i {
                assert(after[b] == before[b - 1]);
                assert(before[i as int] > x);
                if b - 1 > i {
                    assert(before[i as int] < before[b - 1]);
                }
            } else {
                assert(after[a] == before[a - 1] && after[b] == before[b - 1]);
            }
        }
        assert(after.to_set() =~= before.to_set().insert(x)) by {
            assert forall|y: u32| after.to_set().contains(y) <==> before.to_set().insert(x).contains(y) by {
                if after.contains(y) {
                    let k = choose|k: int| 0 <= k < after.len() && after[k] == y;
                    if k < i {
                        assert(before[k] == y);
                    } else if k > i {
                        assert(before[k - 1] == y);
                    }
                }
                if before.contains(y) {
                    let k = choose|k: int| 0 <= k < before.len() && before[k] == y;
                    if k < i {
                        assert(after[k] == y);
                    } else {
                        assert(after[k + 1] == y);
                    }
                }
                if y == x {
                    assert(after[i as int] == x);
                }
            }
        }
    }
}

/// Erases `x` from a strictly ascending vector, if it is there.
fn sorted_remove(v: &mut Vec<VId>, x: VId)
    requires
        strictly_sorted(old(v)@),
    ensures
        strictly_sorted(final(v)@),
        final(v)@.to_set() == old(v)@.to_set().remove(x),
{
    let mut i: usize = 0;
    while i < v.len() && v[i] != x
        invariant
            i <= v@.len(),
            forall|k: int| 0 <= k < i ==> v@[k] != x,
        decreases v@.len() - i,
    {
        i = i + 1;
    }
    if i == v.len() {
        assert(v@.to_set() =~= v@.to_set().remove(x));
        return;
    }
    let ghost before = v@;
    v.remove(i);
    proof {
        let after = v@;
        assert forall|a: int, b: int| 0 <= a < b < after.len() implies after[a] < after[b] by {
            let ia = if a < i { a } else { a + 1 };
            let ib = if b < i { b } else { b + 1 };
            assert(after[a] == before[ia] && after[b] == before[ib]);
        }
        assert(after.to_set() =~= before.to_set().remove(x)) by {
            assert forall|y: u32| after.to_set().contains(y) <==> before.to_set().remove(x).contains(y) by {
                if after.contains(y) {
                    let k = choose|k: int| 0 <= k < after.len() && after[k] == y;
                    let ik = if k < i { k } else { k + 1 };
                    assert(before[ik] == y);
                    assert(before[i as int] == x);
                    if ik != i {
                        if ik < i {
                            assert(before[ik] < before[i as int]);
                        } else {
                            assert(before[i as int] < before[ik]);
                        }
                    }
                }
                if before.contains(y) && y != x {
                    let k = choose|k: int| 0 <= k < before.len() && before[k] == y;
                    if k < i {
                        assert(after[k] == y);
                    } else {
                        assert(k != i);
                        assert(after[k - 1] == y);
                    }
                }
            }
        }
    }
}

/// Applies a delta log to a neighbor list: with operations, the result is the set that the
/// operations, in log order, make of the base neighbors, sorted ascending; without
/// operations the list stays as it is.
pub fn apply_delta_to_neighbors(base_neighbors: &mut VIdList, delta: &DeltaLog)
    ensures
        delta.ops@.len() == 0 ==> final(base_neighbors)@ == old(base_neighbors)@,
        delta.ops@.len() > 0 ==> strictly_sorted(final(base_neighbors)@) && final(base_neighbors)@.to_set()
            == overlay(old(base_neighbors)@.to_set(), delta.ops@),
{
    if delta.ops.len() == 0 {
        return;
    }
    let mut state: Vec<VId> = Vec::new();
    let mut i: usize = 0;
    assert(state@.to_set() =~= base_neighbors@.subrange(0, 0).to_set());
    while i < base_neighbors.len()
        invariant
            i <= base_neighbors@.len(),
            strictly_sorted(state@),
            state@.to_set() == base_neighbors@.subrange(0, i as int).to_set(),
        decreases base_neighbors@.len() - i,
    {
        sorted_insert(&mut state, base_neighbors[i]);
        proof {
            assert(base_neighbors@.subrange(0, i + 1) =~= base_neighbors@.subrange(0, i as int).push(base_neighbors@[i as int]));
            base_neighbors@.subrange(0, i as int).lemma_push_to_set_commute(base_neighbors@[i as int]);
        }
        i = i + 1;
    }
    assert(base_neighbors@.subrange(0, base_neighbors@.len() as int) =~= base_neighbors@);
    let ghost base_set = base_neighbors@.to_set();
    let mut k: usize = 0;
    while k < delta.ops.len()
        invariant
            k <= delta.ops@.len(),
            strictly_sorted(state@),
            state@.to_set() == overlay(base_set, delta.ops@.subrange(0, k as int)),
        decreases delta.ops@.len() - k,
    {
        let op = delta.ops[k];
        proof {
            let s = delta.ops@.subrange(0, k + 1);
            assert(s.drop_last() =~= delta.ops@.subrange(0, k as int));
            assert(s.last() == op);
        }
        if op.op_type == 0 {
            sorted_insert(&mut state, op.neighbor);
        } else if op.op_type == 1 {
            sorted_remove(&mut state, op.neighbor);
        }
        k = k + 1;
    }
    assert(delta.ops@.subrange(0, delta.ops@.len() as int) =~= delta.ops@);
    *base_neighbors = state;
}

/// All edges `(v, n)` of the neighbor lists, vertex by vertex, in list order.
pub open spec fn edges_of_lists(lists: Seq<Seq<u32>>) -> Seq<(u32, u32)>
    decreases lists.len(),
{
    if lists.len() == 0 {
        Seq::empty()
    } else {
        edges_of_lists(lists.drop_last()) + lists.last().map_values(|n: u32| ((lists.len() - 1) as u32, n))
    }
}

/// The sum of the lengths of the lists.
pub open spec fn total_len(lists: Seq<Seq<u32>>) -> int
    decreases lists.len(),
{
    if lists.len() == 0 {
        0
    } else {
        total_len(lists.drop_last()) + lists.last().len()
    }
}

/// The edge list has one edge per entry of the neighbor lists.
pub proof fn lemma_edge_count(lists: Seq<Seq<u32>>)
    ensures
        edges_of_lists(lists).len() == total_len(lists),
    decreases lists.len(),
{
    if lists.len() > 0 {
        lemma_edge_count(lists.drop_last());
    }
}

/// The edges of per-vertex neighbor lists (vertex `v`'s list at index `v`), vertex by
/// vertex.
pub fn read_all_edges(lists: &Vec<VIdList>) -> (r: EdgeList)
    requires
        lists@.len() <= 0x1_0000_0000,
    ensures
        r@ == edges_of_lists(crate::graph::lists_view(lists@)),
        r@.len() == total_len(crate::graph::lists_view(lists@)),
{
    let ghost lv = crate::graph::lists_view(lists@);
    let mut out: Vec<(VId, VId)> = Vec::new();
    let mut v: usize = 0;
    while v < lists.len()
        invariant
            v <= lists@.len() <= 0x1_0000_0000,
            lv == crate::graph::lists_view(lists@),
            out@ == edges_of_lists(lv.subrange(0, v as int)),
        decreases lists@.len() - v,
    {
        let list = &lists[v];
        let ghost start = out@;
        let mut j: usize = 0;
        while j < list.len()
            invariant
                j <= list@.len(),
                v < 0x1_0000_0000,
                out@ == start + list@.subrange(0, j as int).map_values(|n: u32| (v as u32, n)),
            decreases list@.len() - j,
        {
            out.push((v as u32, list[j]));
            assert(out@ =~= start + list@.subrange(0, j + 1).map_values(|n: u32| (v as u32, n)));
            j = j + 1;
        }
        proof {
            let sub = lv.subrange(0, v + 1);
            assert(sub.drop_last() =~= lv.subrange(0, v as int));
            assert(sub.last() == list@);
            assert(list@.subrange(0, list@.len() as int) =~= list@);
            assert(out@ =~= edges_of_lists(sub));
        }
        v = v + 1;
    }
    assert(lv.subrange(0, lv.len() as int) =~= lv);
    proof {
        lemma_edge_count(lv);
    }
    out
}

/// The sources of the edges of `edges` that end at `v`, in edge order.
pub open spec fn sources_to(edges: Seq<(u32, u32)>, v: u32) -> Seq<u32>
    decreases edges.len(),
{
    if edges.len() == 0 {
        Seq::empty()
    } else if edges.last().1 == v {
        sources_to(edges.drop_last(), v).push(edges.last().0)
    } else {
        sources_to(edges.drop_last(), v)
    }
}

/// The sources of the edges that end at `vertex_id`, in edge order.
pub fn read_in_neighbor_clone(all_edges: &EdgeList, vertex_id: VId) -> (r: VIdList)
    ensures
        r@ == sources_to(all_edges@, vertex_id),
{
    let mut out: Vec<VId> = Vec::new();
    let mut i: usize = 0;
    while i < all_edges.len()
        invariant
            i <= all_edges@.len(),
            out@ == sources_to(all_edges@.subrange(0, i as int), vertex_id),
        decreases all_edges@.len() - i,
    {
        let (src, dst) = all_edges[i];
        proof {
            let s = all_edges@.subrange(0, i + 1);
            assert(s.drop_last() =~= all_edges@.subrange(0, i as int));
            assert(s.last() == all_edges@[i as int]);
        }
        if dst == vertex_id {
            out.push(src);
        }
        i = i + 1;
    }
    assert(all_edges@.subrange(0, all_edges@.len() as int) =~= all_edges@);
    out
}

} // verus!
