use vstd::prelude::*;

verus! {

/// Largest number of virtual communities: their ids fit in 15 bits.
pub const MAX_VIRTUAL_COMMS: usize = 0x8000;

/// Total size of the non-empty communities among the first `k` that are assigned `g`.
pub open spec fn vcomm_total(sizes: Seq<usize>, assign: Seq<u16>, g: int, k: int) -> int
    decreases k,
{
    if k <= 0 {
        0
    } else {
        vcomm_total(sizes, assign, g, k - 1) + if assign[k - 1] == g && sizes[k - 1] > 0 {
            sizes[k - 1] as int
        } else {
            0
        }
    }
}

/// Number of giant communities (size at least `boundary`) among the first `k`.
pub open spec fn giants_before(sizes: Seq<usize>, boundary: usize, k: int) -> int
    decreases k,
{
    if k <= 0 {
        0
    } else {
        giants_before(sizes, boundary, k - 1) + if sizes[k - 1] >= boundary {
            1int
        } else {
            0
        }
    }
}

/// Number of small non-empty communities (size below `boundary`) among the first `k`.
pub open spec fn smalls_before(sizes: Seq<usize>, boundary: usize, k: int) -> int
    decreases k,
{
    if k <= 0 {
        0
    } else {
        smalls_before(sizes, boundary, k - 1) + if 0 < sizes[k - 1] < boundary {
            1int
        } else {
            0
        }
    }
}

proof fn lemma_smalls_mono(sizes: Seq<usize>, boundary: usize, a: int, b: int)
    requires
        0 <= a <= b,
    ensures
        smalls_before(sizes, boundary, a) <= smalls_before(sizes, boundary, b),
    decreases b,
{
    if b > a {
        lemma_smalls_mono(sizes, boundary, a, b - 1);
    }
}

/// First-fit packing of the small non-empty communities among the first `k`, in community
/// order: the number of virtual communities closed so far and the size of the open one. A
/// community that would take the open virtual community past `boundary` closes it (unless
/// it is empty) and opens the next.
pub open spec fn first_fit(sizes: Seq<usize>, boundary: usize, k: int) -> (int, int)
    decreases k,
{
    if k <= 0 {
        (0, 0)
    } else {
        let (id, run) = first_fit(sizes, boundary, k - 1);
        let size = sizes[k - 1] as int;
        if 0 < size < boundary {
            if run > 0 && run + size > boundary {
                (id + 1, size)
            } else {
                (id, run + size)
            }
        } else {
            (id, run)
        }
    }
}

/// Number of virtual communities a partition uses: the giant ones, then those first-fit
/// packing closed, then the open one if it holds anything.
pub open spec fn vcomm_count(sizes: Seq<usize>, boundary: usize) -> int {
    let n = sizes.len() as int;
    giants_before(sizes, boundary, n) + first_fit(sizes, boundary, n).0 + if first_fit(sizes, boundary, n).1 > 0 {
        1int
    } else {
        0
    }
}

/// Whether community `c` gets a virtual community: it is giant or non-empty.
pub open spec fn placed_comm(sizes: Seq<usize>, boundary: usize, c: int) -> bool {
    sizes[c] >= boundary || sizes[c] > 0
}

/// Whether some community among the first `k` that gets a virtual community gets `id`.
pub open spec fn id_used(sizes: Seq<usize>, boundary: usize, assign: Seq<u16>, k: int, id: int) -> bool {
    exists|c: int| 0 <= c < k && placed_comm(sizes, boundary, c) && assign[c] == id
}

/// The properties of a partition of communities into virtual communities: giant
/// communities get ids `0..G` in ascending community order, each alone; small non-empty
/// ones get ids from `G` on, by first-fit packing in community order; each virtual
/// community of small ones totals at most `boundary`; the ids in use are exactly
/// `0..vcomm_count`.
pub open spec fn partitioned(sizes: Seq<usize>, boundary: usize, assign: Seq<u16>) -> bool {
    let n = sizes.len() as int;
    let g = giants_before(sizes, boundary, n);
    &&& assign.len() == sizes.len()
    &&& forall|c: int| 0 <= c < n && sizes[c] >= boundary ==> #[trigger] assign[c] == giants_before(sizes, boundary, c)
    &&& forall|c: int| 0 <= c < n && 0 < sizes[c] < boundary ==> #[trigger] assign[c] >= g
    &&& forall|c: int, d: int|
        0 <= c < d < n && 0 < sizes[c] < boundary && 0 < sizes[d] < boundary ==> #[trigger] assign[c] <= #[trigger] assign[d]
    &&& forall|c: int| 0 <= c < n && sizes[c] == 0 && boundary > 0 ==> #[trigger] assign[c] == 0
    &&& forall|v: int| g <= v ==> #[trigger] vcomm_total(sizes, assign, v, n) <= boundary
    &&& forall|c: int| 0 <= c < n ==> #[trigger] assign[c] < MAX_VIRTUAL_COMMS
    &&& forall|c: int| 0 <= c < n && 0 < sizes[c] < boundary ==> #[trigger] assign[c] == g + first_fit(sizes, boundary, c + 1).0
    &&& forall|c: int| 0 <= c < n && placed_comm(sizes, boundary, c) ==> #[trigger] assign[c] < vcomm_count(sizes, boundary)
    &&& forall|id: int| 0 <= id < vcomm_count(sizes, boundary) ==> #[trigger] id_used(sizes, boundary, assign, n, id)
}

/// Every id that a partition hands out fits in 15 bits.
pub proof fn lemma_assign_below(sizes: Seq<usize>, boundary: usize, assign: Seq<u16>, c: int)
    requires
        partitioned(sizes, boundary, assign),
        0 <= c < sizes.len(),
    ensures
        assign[c] < MAX_VIRTUAL_COMMS,
{
}

proof fn lemma_total_update(sizes: Seq<usize>, assign: Seq<u16>, g: int, k: int, c: int, x: u16)
    requires
        0 <= k <= c < assign.len(),
    ensures
        vcomm_total(sizes, assign.update(c, x), g, k) == vcomm_total(sizes, assign, g, k),
    decreases k,
{
    if k > 0 {
        lemma_total_update(sizes, assign, g, k - 1, c, x);
    }
}

proof fn lemma_giants_mono(sizes: Seq<usize>, boundary: usize, a: int, b: int)
    requires
        0 <= a <= b,
    ensures
        giants_before(sizes, boundary, a) <= giants_before(sizes, boundary, b),
        giants_before(sizes, boundary, a) >= 0,
    decreases b,
{
    lemma_giants_nonneg(sizes, boundary, a);
    if b > a {
        lemma_giants_mono(sizes, boundary, a, b - 1);
    }
}

proof fn lemma_giants_nonneg(sizes: Seq<usize>, boundary: usize, a: int)
    ensures
        giants_before(sizes, boundary, a) >= 0,
    decreases a,
{
    if a > 0 {
        lemma_giants_nonneg(sizes, boundary, a - 1);
    }
}

/// Assigns each community a virtual community: each giant community (size at least
/// `boundary`) its own, in ascending community order; small non-empty communities packed
/// first-fit, in ascending community order, into virtual communities of total size at
/// most `boundary`; empty communities get 0. `None` when more than `MAX_VIRTUAL_COMMS`
/// would be needed.
pub fn partition_communities(sizes: &Vec<usize>, boundary: usize) -> (r: Option<Vec<u16>>)
    ensures
        r matches Some(assign) ==> partitioned(sizes@, boundary, assign@),
        giants_before(sizes@, boundary, sizes@.len() as int) + smalls_before(sizes@, boundary, sizes@.len() as int)
            <= MAX_VIRTUAL_COMMS ==> r is Some,
{
    let n = sizes.len();
    let mut giant_count: usize = 0;
    let mut c: usize = 0;
    while c < n
        invariant
            n == sizes@.len(),
            c <= n,
            giant_count == giants_before(sizes@, boundary, c as int),
            giant_count <= c,
        decreases n - c,
    {
        if sizes[c] >= boundary {
            giant_count = giant_count + 1;
        }
        c = c + 1;
    }
    if giant_count > MAX_VIRTUAL_COMMS {
        proof {
            lemma_smalls_mono(sizes@, boundary, 0, n as int);
        }
        return None;
    }
    let ghost g = giant_count as int;
    let mut assign: Vec<u16> = Vec::new();
    let mut i: usize = 0;
    while i < n
        invariant
            i <= n,
            n == sizes@.len(),
            assign@.len() == i,
            forall|k: int| 0 <= k < i ==> #[trigger] assign@[k] == 0,
            0 < MAX_VIRTUAL_COMMS,
        decreases n - i,
    {
        assign.push(0);
        i = i + 1;
    }
    let mut next_giant: usize = 0;
    let mut current: usize = giant_count;
    let mut current_size: usize = 0;
    let mut k: usize = 0;
    while k < n
        invariant
            n == sizes@.len(),
            assign@.len() == n,
            k <= n,
            g == giant_count,
            g == giants_before(sizes@, boundary, n as int),
            giant_count <= MAX_VIRTUAL_COMMS,
            next_giant == giants_before(sizes@, boundary, k as int),
            g <= current < MAX_VIRTUAL_COMMS || (current == g && g == MAX_VIRTUAL_COMMS),
            current_size <= boundary,
            current_size == vcomm_total(sizes@, assign@, current as int, k as int),
            current_size == 0 ==> current == g || current > g,
            forall|v: int| g <= v < current ==> #[trigger] vcomm_total(sizes@, assign@, v, k as int) <= boundary,
            forall|v: int| current < v ==> #[trigger] vcomm_total(sizes@, assign@, v, k as int) == 0,
            forall|c: int| k <= c < n ==> #[trigger] assign@[c] == 0,
            forall|c: int| 0 <= c < k && sizes@[c] >= boundary ==> #[trigger] assign@[c] == giants_before(sizes@, boundary, c),
            forall|c: int| 0 <= c < k && 0 < sizes@[c] < boundary ==> g <= #[trigger] assign@[c] <= current,
            forall|c: int, d: int|
                0 <= c < d < k && 0 < sizes@[c] < boundary && 0 < sizes@[d] < boundary ==> #[trigger] assign@[c] <= #[trigger] assign@[d],
            forall|c: int| 0 <= c < k && sizes@[c] == 0 && boundary > 0 ==> #[trigger] assign@[c] == 0,
            forall|c: int| 0 <= c < n ==> #[trigger] assign@[c] < MAX_VIRTUAL_COMMS,
            current - g + (if current_size > 0 { 1int } else { 0 }) <= smalls_before(sizes@, boundary, k as int),
            current == g + first_fit(sizes@, boundary, k as int).0,
            current_size == first_fit(sizes@, boundary, k as int).1,
            forall|c: int| 0 <= c < k && 0 < sizes@[c] < boundary ==> #[trigger] assign@[c] == g + first_fit(sizes@, boundary, c + 1).0,
            forall|c: int| 0 <= c < k && 0 < sizes@[c] < boundary ==> #[trigger] assign@[c] < current + (if current_size > 0 { 1int } else { 0 }),
            forall|id: int| 0 <= id < next_giant ==> #[trigger] id_used(sizes@, boundary, assign@, k as int, id),
            forall|id: int| g <= id < current + (if current_size > 0 { 1int } else { 0 }) ==> #[trigger] id_used(sizes@, boundary, assign@, k as int, id),
        decreases n - k,
    {
        let size = sizes[k];
        let ghost before = assign@;
        let ghost old_ng = next_giant as int;
        let ghost old_up = current + (if current_size > 0 { 1int } else { 0 });
        proof {
            lemma_giants_mono(sizes@, boundary, k as int + 1, n as int);
        }
        if size >= boundary {
            assert(next_giant < g);
            assign.set(k, next_giant as u16);
            proof {
                assert forall|v: int| #![trigger vcomm_total(sizes@, assign@, v, k + 1)]
                    v != next_giant implies vcomm_total(sizes@, assign@, v, k + 1) == vcomm_total(sizes@, before, v, k as int) by {
                    lemma_total_update(sizes@, before, v, k as int, k as int, next_giant as u16);
                }
            }
            next_giant = next_giant + 1;
        } else if size > 0 {
            if current_size > 0 && size > boundary - current_size {
                if current + 1 >= MAX_VIRTUAL_COMMS {
                    proof {
                        lemma_smalls_mono(sizes@, boundary, k + 1, n as int);
                    }
                    return None;
                }
                current = current + 1;
                current_size = 0;
            }
            if current >= MAX_VIRTUAL_COMMS {
                proof {
                    lemma_smalls_mono(sizes@, boundary, k + 1, n as int);
                }
                return None;
            }
            assign.set(k, current as u16);
            proof {
                assert forall|v: int| #![trigger vcomm_total(sizes@, assign@, v, k + 1)]
                    v != current implies vcomm_total(sizes@, assign@, v, k + 1) == vcomm_total(sizes@, before, v, k as int) by {
                    lemma_total_update(sizes@, before, v, k as int, k as int, current as u16);
                }
                lemma_total_update(sizes@, before, current as int, k as int, k as int, current as u16);
            }
            current_size = current_size + size;
        } else {
            proof {
                assert(assign@ == before);
                assert forall|v: int| #![trigger vcomm_total(sizes@, assign@, v, k + 1)]
                    true implies vcomm_total(sizes@, assign@, v, k + 1) == vcomm_total(sizes@, before, v, k as int) by {
                    assert(vcomm_total(sizes@, assign@, v, k + 1) == vcomm_total(sizes@, assign@, v, k as int));
                }
            }
        }
        proof {
            let up = current + (if current_size > 0 { 1int } else { 0 });
            assert forall|id: int| 0 <= id < next_giant implies #[trigger] id_used(sizes@, boundary, assign@, k + 1, id) by {
                if id < old_ng {
                    assert(id_used(sizes@, boundary, before, k as int, id));
                    let c = choose|c: int| 0 <= c < k && placed_comm(sizes@, boundary, c) && before[c] == id;
                    assert(assign@[c] == before[c]);
                } else {
                    assert(assign@[k as int] == id);
                }
            }
            assert forall|id: int| g <= id < up implies #[trigger] id_used(sizes@, boundary, assign@, k + 1, id) by {
                if id < old_up {
                    assert(id_used(sizes@, boundary, before, k as int, id));
                    let c = choose|c: int| 0 <= c < k && placed_comm(sizes@, boundary, c) && before[c] == id;
                    assert(assign@[c] == before[c]);
                } else {
                    assert(assign@[k as int] == id);
                }
            }
            assert forall|c: int| 0 <= c < k + 1 && sizes@[c] == 0 && boundary > 0 implies #[trigger] assign@[c] == 0 by {
                if c < k {
                    assert(assign@[c] == before[c]);
                } else {
                    assert(before[c] == 0);
                }
            }
            assert forall|c: int| 0 <= c < n implies #[trigger] assign@[c] < MAX_VIRTUAL_COMMS by {
                if c != k {
                    assert(assign@[c] == before[c]);
                }
            }
        }
        k = k + 1;
    }
    proof {
        let ff = first_fit(sizes@, boundary, n as int);
        assert(vcomm_count(sizes@, boundary) == current + (if current_size > 0 { 1int } else { 0 }));
        assert forall|c: int| 0 <= c < n && placed_comm(sizes@, boundary, c) implies #[trigger] assign@[c] < vcomm_count(sizes@, boundary) by {
            if sizes@[c] >= boundary {
                lemma_giants_mono(sizes@, boundary, c + 1, n as int);
                assert(giants_before(sizes@, boundary, c + 1) == giants_before(sizes@, boundary, c) + 1);
            }
        }
        assert forall|id: int| 0 <= id < vcomm_count(sizes@, boundary) implies #[trigger] id_used(sizes@, boundary, assign@, n as int, id) by {
            if id < g {
                assert(id_used(sizes@, boundary, assign@, n as int, id));
            }
        }
    }
    Some(assign)
}

/// Each virtual community totals at most the boundary, or holds a single giant
/// community; so no virtual community exceeds the boundary plus the largest size.
pub proof fn lemma_partition_bound(sizes: Seq<usize>, boundary: usize, assign: Seq<u16>, largest: int, v: int)
    requires
        partitioned(sizes, boundary, assign),
        forall|c: int| 0 <= c < sizes.len() ==> #[trigger] sizes[c] <= largest,
        0 <= v,
        largest >= 0,
    ensures
        vcomm_total(sizes, assign, v, sizes.len() as int) <= boundary + largest,
{
    let n = sizes.len() as int;
    if v >= giants_before(sizes, boundary, n) {
    } else {
        lemma_giant_alone(sizes, boundary, assign, v, n, largest);
    }
}

/// No virtual community of a partition exceeds the boundary plus the largest community
/// size; `build_from_graph` partitions the communities' packed sizes this way.
pub proof fn lemma_partition_bound_all(sizes: Seq<usize>, boundary: usize, assign: Seq<u16>, largest: int)
    requires
        partitioned(sizes, boundary, assign),
        forall|c: int| 0 <= c < sizes.len() ==> #[trigger] sizes[c] <= largest,
        largest >= 0,
    ensures
        forall|v: int| 0 <= v ==> #[trigger] vcomm_total(sizes, assign, v, sizes.len() as int) <= boundary + largest,
{
    assert forall|v: int| 0 <= v implies #[trigger] vcomm_total(sizes, assign, v, sizes.len() as int) <= boundary + largest by {
        lemma_partition_bound(sizes, boundary, assign, largest, v);
    }
}

proof fn lemma_giant_alone(sizes: Seq<usize>, boundary: usize, assign: Seq<u16>, v: int, k: int, largest: int)
    requires
        partitioned(sizes, boundary, assign),
        forall|c: int| 0 <= c < sizes.len() ==> #[trigger] sizes[c] <= largest,
        0 <= v < giants_before(sizes, boundary, sizes.len() as int),
        0 <= k <= sizes.len(),
        largest >= 0,
    ensures
        vcomm_total(sizes, assign, v, k) <= largest,
        vcomm_total(sizes, assign, v, k) == 0 || v < giants_before(sizes, boundary, k),
        v >= giants_before(sizes, boundary, k) ==> vcomm_total(sizes, assign, v, k) == 0,
    decreases k,
{
    if k > 0 {
        lemma_giant_alone(sizes, boundary, assign, v, k - 1, largest);
        let c = k - 1;
        lemma_giants_mono(sizes, boundary, k, sizes.len() as int);
        lemma_giants_mono(sizes, boundary, c, k);
        if sizes[c] >= boundary {
        } else if sizes[c] > 0 {
            assert(assign[c] >= giants_before(sizes, boundary, sizes.len() as int));
        }
    }
}

} // verus!
