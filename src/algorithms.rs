use vstd::prelude::*;

use crate::graph::lists_view;
use crate::types::VId;

verus! {

/// Number of `true` entries.
pub open spec fn count_true(s: Seq<bool>) -> nat
    decreases s.len(),
{
    if s.len() == 0 {
        0
    } else {
        count_true(s.drop_last()) + if s.last() {
            1nat
        } else {
            0
        }
    }
}

proof fn lemma_count_bound(s: Seq<bool>)
    ensures
        count_true(s) <= s.len(),
    decreases s.len(),
{
    if s.len() > 0 {
        lemma_count_bound(s.drop_last());
    }
}

proof fn lemma_count_set(s: Seq<bool>, i: int)
    requires
        0 <= i < s.len(),
        !s[i],
    ensures
        count_true(s.update(i, true)) == count_true(s) + 1,
    decreases s.len(),
{
    let t = s.update(i, true);
    if i < s.len() - 1 {
        assert(t.drop_last() =~= s.drop_last().update(i, true));
        lemma_count_set(s.drop_last(), i);
    } else {
        assert(t.drop_last() =~= s.drop_last());
    }
}

proof fn lemma_count_all_false(n: nat)
    ensures
        count_true(Seq::new(n, |i: int| false)) == 0,
    decreases n,
{
    if n > 0 {
        assert(Seq::new(n, |i: int| false).drop_last() =~= Seq::new((n - 1) as nat, |i: int| false));
        lemma_count_all_false((n - 1) as nat);
    }
}

/// Whether `v` is listed in `r` at distance `d`.
pub open spec fn listed(r: Seq<(u32, u32)>, v: u32, d: u32) -> bool {
    exists|i: int| 0 <= i < r.len() && r[i] == (v, d)
}

/// Whether `w` is listed at distance at most `d`.
pub open spec fn listed_within(r: Seq<(u32, u32)>, w: u32, d: int) -> bool {
    exists|j: int| 0 <= j < r.len() && r[j].0 == w && r[j].1 <= d
}

/// Whether the `i`-th listed vertex has a listed predecessor one step closer.
pub open spec fn has_pred(g: Seq<Seq<u32>>, r: Seq<(u32, u32)>, i: int) -> bool {
    exists|p: int| 0 <= p < r.len() && r[p].1 + 1 == r[i].1 && g[r[p].0 as int].contains(r[i].0)
}

/// Breadth-first search result `r` from `start` over the adjacency `g` (vertex `v`'s
/// neighbors at index `v`; neighbors outside the graph are ignored): `r` starts with
/// `(start, 0)`, lists each vertex once, lists every neighbor of a listed vertex at most
/// one step further, and gives each listed vertex other than `start` a listed predecessor
/// one step closer. Together these say that `r` lists exactly the vertices reachable from
/// `start`, each with its shortest hop count.
pub open spec fn bfs_result(g: Seq<Seq<u32>>, start: u32, r: Seq<(u32, u32)>) -> bool {
    &&& r.len() > 0
    &&& r[0] == (start, 0u32)
    &&& forall|i: int, j: int| 0 <= i < j < r.len() ==> #[trigger] r[i].0 != #[trigger] r[j].0
    &&& forall|i: int| 0 <= i < r.len() ==> #[trigger] r[i].0 < g.len()
    &&& closed_upto(g, r, r.len() as int)
    &&& has_preds(g, r)
}

/// Each listed vertex's neighbors (inside the graph) among the first `h` listed are
/// listed too, at most one step further.
#[verifier::opaque]
pub open spec fn closed_upto(g: Seq<Seq<u32>>, r: Seq<(u32, u32)>, h: int) -> bool {
    forall|i: int, k: int|
        0 <= i < h && 0 <= k < g[r[i].0 as int].len() && g[r[i].0 as int][k] < g.len()
            ==> #[trigger] listed_within(r, g[r[i].0 as int][k], r[i].1 + 1)
}

/// Every listed vertex but the first has a listed predecessor one step closer.
#[verifier::opaque]
pub open spec fn has_preds(g: Seq<Seq<u32>>, r: Seq<(u32, u32)>) -> bool {
    forall|i: int| 1 <= i < r.len() ==> #[trigger] has_pred(g, r, i)
}

/// The first `k` neighbors of `u` (inside the graph) are listed at most at `d`.
#[verifier::opaque]
pub open spec fn first_listed(ns: Seq<u32>, k: int, r: Seq<(u32, u32)>, n: int, d: int) -> bool {
    forall|kk: int| 0 <= kk < k && ns[kk] < n ==> #[trigger] listed_within(r, ns[kk], d)
}

/// Listed vertices are distinct vertices of the graph, marked visited; visited vertices
/// are listed; distances never decrease and stay below the position.
pub open spec fn queue_ok(r: Seq<(u32, u32)>, visited: Seq<bool>, n: int) -> bool {
    &&& visited.len() == n
    &&& count_true(visited) == r.len()
    &&& forall|i: int, j: int| 0 <= i < j < r.len() ==> #[trigger] r[i].0 != #[trigger] r[j].0
    &&& forall|i: int| 0 <= i < r.len() ==> #[trigger] r[i].0 < n && visited[r[i].0 as int]
    &&& forall|w: int| 0 <= w < n && #[trigger] visited[w] ==> exists|i: int| 0 <= i < r.len() && r[i].0 == w
    &&& forall|i: int, j: int| 0 <= i <= j < r.len() ==> #[trigger] r[i].1 <= #[trigger] r[j].1
    &&& forall|i: int| 0 <= i < r.len() ==> #[trigger] r[i].1 <= i
}

proof fn lemma_push_step(
    g: Seq<Seq<u32>>,
    r: Seq<(u32, u32)>,
    visited: Seq<bool>,
    h: int,
    k: int,
    w: u32,
)
    requires
        queue_ok(r, visited, g.len() as int),
        0 <= h < r.len(),
        0 <= k < g[r[h].0 as int].len(),
        g[r[h].0 as int][k] == w,
        w < g.len(),
        !visited[w as int],
        r[r.len() - 1].1 <= r[h].1 + 1,
        r[h].1 + 1 <= u32::MAX,
        closed_upto(g, r, h),
        has_preds(g, r),
        first_listed(g[r[h].0 as int], k, r, g.len() as int, r[h].1 + 1),
    ensures
        ({
            let r2 = r.push((w, (r[h].1 + 1) as u32));
            let v2 = visited.update(w as int, true);
            &&& queue_ok(r2, v2, g.len() as int)
            &&& closed_upto(g, r2, h)
            &&& has_preds(g, r2)
            &&& first_listed(g[r[h].0 as int], k + 1, r2, g.len() as int, r[h].1 + 1)
            &&& r2[r2.len() - 1].1 <= r2[h].1 + 1
            &&& r2[h] == r[h]
        }),
{
    let n = g.len() as int;
    let d = (r[h].1 + 1) as u32;
    let r2 = r.push((w, d));
    let v2 = visited.update(w as int, true);
    let len0 = r.len() as int;
    lemma_count_set(visited, w as int);
    assert(r2[len0] == (w, d));
    assert forall|i: int, j: int| 0 <= i < j < r2.len() implies #[trigger] r2[i].0 != #[trigger] r2[j].0 by {
        if j == len0 {
            assert(r2[i] == r[i]);
            assert(visited[r[i].0 as int]);
        } else {
            assert(r2[i] == r[i] && r2[j] == r[j]);
        }
    }
    assert forall|i: int| 0 <= i < r2.len() implies #[trigger] r2[i].0 < n && v2[r2[i].0 as int] by {
        if i < len0 {
            assert(r2[i] == r[i]);
        }
    }
    assert forall|ww: int| 0 <= ww < n && #[trigger] v2[ww] implies exists|i: int| 0 <= i < r2.len() && r2[i].0 == ww by {
        if ww == w {
            assert(r2[len0].0 == ww);
        } else {
            assert(visited[ww]);
            let i = choose|i: int| 0 <= i < r.len() && r[i].0 == ww;
            assert(r2[i] == r[i]);
        }
    }
    assert forall|i: int, j: int| 0 <= i <= j < r2.len() implies #[trigger] r2[i].1 <= #[trigger] r2[j].1 by {
        if j == len0 {
            if i < len0 {
                assert(r2[i] == r[i]);
                assert(r[i].1 <= r[len0 - 1].1);
            }
        } else {
            assert(r2[i] == r[i] && r2[j] == r[j]);
        }
    }
    assert forall|i: int| 0 <= i < r2.len() implies #[trigger] r2[i].1 <= i by {
        if i < len0 {
            assert(r2[i] == r[i]);
        } else {
            assert(r[h].1 <= h);
        }
    }
    assert(closed_upto(g, r2, h)) by {
        reveal(closed_upto);
        assert forall|i: int, kk: int|
            0 <= i < h && 0 <= kk < g[r2[i].0 as int].len() && g[r2[i].0 as int][kk] < n
                implies #[trigger] listed_within(r2, g[r2[i].0 as int][kk], r2[i].1 + 1) by {
            assert(r2[i] == r[i]);
            assert(listed_within(r, g[r[i].0 as int][kk], r[i].1 + 1));
            let j = choose|j: int| 0 <= j < r.len() && r[j].0 == g[r[i].0 as int][kk] && r[j].1 <= r[i].1 + 1;
            assert(r2[j] == r[j]);
        }
    }
    assert(has_preds(g, r2)) by {
        reveal(has_preds);
        assert forall|i: int| 1 <= i < r2.len() implies #[trigger] has_pred(g, r2, i) by {
            if i == len0 {
                assert(r2[h] == r[h]);
                assert(g[r[h].0 as int].contains(w)) by {
                    assert(g[r[h].0 as int][k] == w);
                }
            } else {
                assert(has_pred(g, r, i));
                let p = choose|p: int| 0 <= p < r.len() && r[p].1 + 1 == r[i].1 && g[r[p].0 as int].contains(r[i].0);
                assert(r2[p] == r[p] && r2[i] == r[i]);
            }
        }
    }
    assert(first_listed(g[r[h].0 as int], k + 1, r2, n, r[h].1 + 1)) by {
        reveal(first_listed);
        let ns = g[r[h].0 as int];
        assert forall|kk: int| 0 <= kk < k + 1 && ns[kk] < n implies #[trigger] listed_within(r2, ns[kk], r[h].1 + 1) by {
            if kk < k {
                assert(listed_within(r, ns[kk], r[h].1 + 1));
                let j = choose|j: int| 0 <= j < r.len() && r[j].0 == ns[kk] && r[j].1 <= r[h].1 + 1;
                assert(r2[j] == r[j]);
            } else {
                assert(r2[len0].0 == ns[kk]);
            }
        }
    }
}

proof fn lemma_skip_step(g: Seq<Seq<u32>>, r: Seq<(u32, u32)>, visited: Seq<bool>, h: int, k: int)
    requires
        queue_ok(r, visited, g.len() as int),
        0 <= h < r.len(),
        0 <= k < g[r[h].0 as int].len(),
        g[r[h].0 as int][k] >= g.len() || visited[g[r[h].0 as int][k] as int],
        r[r.len() - 1].1 <= r[h].1 + 1,
        first_listed(g[r[h].0 as int], k, r, g.len() as int, r[h].1 + 1),
    ensures
        first_listed(g[r[h].0 as int], k + 1, r, g.len() as int, r[h].1 + 1),
{
    reveal(first_listed);
    let ns = g[r[h].0 as int];
    let n = g.len() as int;
    assert forall|kk: int| 0 <= kk < k + 1 && ns[kk] < n implies #[trigger] listed_within(r, ns[kk], r[h].1 + 1) by {
        if kk == k {
            assert(visited[ns[kk] as int]);
            let j = choose|j: int| 0 <= j < r.len() && r[j].0 == ns[kk];
            assert(r[j].1 <= r[r.len() - 1].1);
        }
    }
}

proof fn lemma_head_done(g: Seq<Seq<u32>>, r: Seq<(u32, u32)>, h: int)
    requires
        0 <= h < r.len(),
        closed_upto(g, r, h),
        first_listed(g[r[h].0 as int], g[r[h].0 as int].len() as int, r, g.len() as int, r[h].1 + 1),
    ensures
        closed_upto(g, r, h + 1),
{
    reveal(closed_upto);
    reveal(first_listed);
    assert forall|i: int, kk: int|
        0 <= i < h + 1 && 0 <= kk < g[r[i].0 as int].len() && g[r[i].0 as int][kk] < g.len()
            implies #[trigger] listed_within(r, g[r[i].0 as int][kk], r[i].1 + 1) by {
        if i == h {
            let ns = g[r[h].0 as int];
            assert(ns[kk] == g[r[i].0 as int][kk]);
        }
    }
}

proof fn lemma_bfs_done(g: Seq<Seq<u32>>, start: u32, r: Seq<(u32, u32)>, visited: Seq<bool>)
    requires
        queue_ok(r, visited, g.len() as int),
        r.len() > 0,
        r[0] == (start, 0u32),
        closed_upto(g, r, r.len() as int),
        has_preds(g, r),
    ensures
        bfs_result(g, start, r),
{
}

/// Breadth-first search from `start` over the adjacency `adj` (vertex `v`'s neighbors at
/// index `v`): each vertex reachable from `start` with its hop count, in discovery order.
/// Empty when `start` is not a vertex of `adj`.
pub fn bfs(adj: &Vec<Vec<VId>>, start: VId) -> (r: Vec<(VId, u32)>)
    requires
        adj@.len() <= u32::MAX,
    ensures
        start >= adj@.len() ==> r@.len() == 0,
        start < adj@.len() ==> bfs_result(lists_view(adj@), start, r@),
{
    let n = adj.len();
    if start as usize >= n {
        return Vec::new();
    }
    let ghost g = lists_view(adj@);
    let mut visited: Vec<bool> = Vec::new();
    let mut v: usize = 0;
    while v < n
        invariant
            v <= n,
            visited@ == Seq::new(v as nat, |i: int| false),
        decreases n - v,
    {
        visited.push(false);
        assert(visited@ =~= Seq::new((v + 1) as nat, |i: int| false));
        v = v + 1;
    }
    proof {
        lemma_count_all_false(n as nat);
        lemma_count_set(visited@, start as int);
    }
    visited.set(start as usize, true);
    let mut order: Vec<(VId, u32)> = Vec::new();
    order.push((start, 0));
    proof {
        reveal(closed_upto);
        reveal(has_preds);
        assert forall|w: int| 0 <= w < n && #[trigger] visited@[w] implies exists|i: int| 0 <= i < order@.len() && order@[i].0 == w by {
            assert(w == start);
            assert(order@[0].0 == w);
        }
    }
    let mut head: usize = 0;
    while head < order.len()
        invariant
            n == adj@.len(),
            n <= u32::MAX,
            g == lists_view(adj@),
            start < n,
            queue_ok(order@, visited@, n as int),
            order@.len() >= 1,
            order@[0] == (start, 0u32),
            head <= order@.len(),
            head < order@.len() ==> order@[order@.len() - 1].1 <= order@[head as int].1 + 1,
            closed_upto(g, order@, head as int),
            has_preds(g, order@),
        decreases n - head,
    {
        proof {
            lemma_count_bound(visited@);
        }
        let (u, du) = order[head];
        let neighbors = &adj[u as usize];
        let ghost h = head as int;
        let mut k: usize = 0;
        proof {
            reveal(first_listed);
        }
        while k < neighbors.len()
            invariant
                n == adj@.len(),
                n <= u32::MAX,
                g == lists_view(adj@),
                neighbors@ == g[u as int],
                h == head,
                0 <= h < order@.len(),
                (u, du) == order@[h],
                du <= h,
                queue_ok(order@, visited@, n as int),
                order@.len() >= 1,
                order@[0] == (start, 0u32),
                order@[order@.len() - 1].1 <= du + 1,
                closed_upto(g, order@, h),
                has_preds(g, order@),
                first_listed(neighbors@, k as int, order@, n as int, du + 1),
                k <= neighbors@.len(),
            decreases neighbors@.len() - k,
        {
            let w = neighbors[k];
            proof {
                lemma_count_bound(visited@);
                assert(g[u as int][k as int] == w);
            }
            if (w as usize) < n && !visited[w as usize] {
                proof {
                    lemma_push_step(g, order@, visited@, h, k as int, w);
                }
                visited.set(w as usize, true);
                order.push((w, du + 1));
            } else {
                proof {
                    lemma_skip_step(g, order@, visited@, h, k as int);
                }
            }
            k = k + 1;
        }
        proof {
            lemma_head_done(g, order@, h);
            if h + 1 < order@.len() {
                assert(order@[h].1 <= order@[h + 1].1);
            }
        }
        head = head + 1;
    }
    proof {
        lemma_bfs_done(g, start, order@, visited@);
    }
    order
}

/// Whether `p` is a walk in `g`: vertices of the graph, each followed by one of its
/// neighbors.
pub open spec fn is_walk(g: Seq<Seq<u32>>, p: Seq<u32>) -> bool {
    &&& p.len() >= 1
    &&& forall|i: int| 0 <= i < p.len() ==> #[trigger] p[i] < g.len()
    &&& forall|i: int| 0 <= i < p.len() - 1 ==> g[p[i] as int].contains(#[trigger] p[i + 1])
}

/// A breadth-first search lists the end of every walk from `start`, at a distance no
/// larger than the walk's length: listed distances are shortest hop counts, and every
/// reachable vertex is listed.
pub proof fn lemma_bfs_shortest(g: Seq<Seq<u32>>, start: u32, r: Seq<(u32, u32)>, p: Seq<u32>)
    requires
        bfs_result(g, start, r),
        is_walk(g, p),
        p[0] == start,
    ensures
        listed_within(r, p.last(), p.len() - 1),
    decreases p.len(),
{
    if p.len() == 1 {
        assert(r[0].0 == p.last());
    } else {
        let q = p.drop_last();
        assert forall|i: int| 0 <= i < q.len() - 1 implies g[q[i] as int].contains(#[trigger] q[i + 1]) by {
            assert(q[i] == p[i] && q[i + 1] == p[i + 1]);
        }
        assert forall|i: int| 0 <= i < q.len() implies #[trigger] q[i] < g.len() by {
            assert(q[i] == p[i]);
        }
        lemma_bfs_shortest(g, start, r, q);
        let j = choose|j: int| 0 <= j < r.len() && r[j].0 == q.last() && r[j].1 <= q.len() - 1;
        let u = q.last();
        assert(u == p[p.len() - 2]);
        let m = p.len() - 2;
        assert(0 <= m < p.len() - 1);
        assert(g[p[m] as int].contains(p[m + 1]));
        assert(p[m + 1] == p.last());
        let k = choose|k: int| 0 <= k < g[u as int].len() && g[u as int][k] == p.last();
        assert(p.last() < g.len()) by {
            assert(p[p.len() - 1] < g.len());
        }
        reveal(closed_upto);
        assert(listed_within(r, g[r[j].0 as int][k], r[j].1 + 1));
        let j2 = choose|j2: int| 0 <= j2 < r.len() && r[j2].0 == p.last() && r[j2].1 <= r[j].1 + 1;
    }
}

/// Whether `p` is a walk from `a` to `b` in `g`.
pub open spec fn walk_between(g: Seq<Seq<u32>>, p: Seq<u32>, a: u32, b: u32) -> bool {
    is_walk(g, p) && p[0] == a && p.last() == b
}

/// Whether a walk in `g` leads from `a` to `b`.
pub open spec fn connected(g: Seq<Seq<u32>>, a: u32, b: u32) -> bool {
    exists|p: Seq<u32>| #[trigger] walk_between(g, p, a, b)
}

/// Whether every edge of `g` goes both ways.
pub open spec fn symmetric(g: Seq<Seq<u32>>) -> bool {
    forall|a: u32, b: u32| a < g.len() && b < g.len() && #[trigger] g[a as int].contains(b) ==> #[trigger] g[b as int].contains(a)
}

/// `s` is the undirected form of `g`: the same vertices, and `b` a neighbor of `a` exactly
/// when `g` has an edge between them either way.
pub open spec fn undirected_of(s: Seq<Seq<u32>>, g: Seq<Seq<u32>>) -> bool {
    &&& s.len() == g.len()
    &&& forall|a: u32, b: u32| a < g.len() && b < g.len() ==> (#[trigger] s[a as int].contains(b) <==> (g[a as int].contains(b) || g[b as int].contains(a)))
    &&& forall|a: int, k: int| 0 <= a < s.len() && 0 <= k < s[a].len() ==> #[trigger] s[a][k] < g.len()
}

proof fn lemma_walk_reverse(g: Seq<Seq<u32>>, p: Seq<u32>)
    requires
        symmetric(g),
        is_walk(g, p),
    ensures
        is_walk(g, p.reverse()),
        p.reverse()[0] == p.last(),
        p.reverse().last() == p[0],
{
    let q = p.reverse();
    assert forall|i: int| 0 <= i < q.len() implies #[trigger] q[i] < g.len() by {
        assert(q[i] == p[p.len() - 1 - i]);
    }
    assert forall|i: int| 0 <= i < q.len() - 1 implies g[q[i] as int].contains(#[trigger] q[i + 1]) by {
        let j = p.len() - 2 - i;
        assert(q[i] == p[j + 1] && q[i + 1] == p[j]);
        assert(g[p[j] as int].contains(p[j + 1]));
    }
}

proof fn lemma_walk_concat(g: Seq<Seq<u32>>, p: Seq<u32>, q: Seq<u32>)
    requires
        is_walk(g, p),
        is_walk(g, q),
        p.last() == q[0],
    ensures
        is_walk(g, p + q.drop_first()),
        (p + q.drop_first())[0] == p[0],
        (p + q.drop_first()).last() == q.last(),
{
    let r = p + q.drop_first();
    assert forall|i: int| 0 <= i < r.len() implies #[trigger] r[i] < g.len() by {
        if i >= p.len() {
            assert(r[i] == q[i - p.len() + 1]);
        }
    }
    assert forall|i: int| 0 <= i < r.len() - 1 implies g[r[i] as int].contains(#[trigger] r[i + 1]) by {
        if i < p.len() - 1 {
            assert(r[i] == p[i] && r[i + 1] == p[i + 1]);
        } else if i == p.len() - 1 {
            assert(r[i] == q[0] && r[i + 1] == q[1]);
        } else {
            assert(r[i] == q[i - p.len() + 1] && r[i + 1] == q[i - p.len() + 2]);
        }
    }
    if q.len() == 1 {
        assert(r =~= p);
    } else {
        assert(r.last() == q[q.len() - 1]);
    }
}

/// A vertex that a breadth-first search lists at distance `d` is reached from the start
/// by a walk of `d` steps; with `lemma_bfs_shortest`, listed distances are exactly the
/// shortest hop counts.
pub proof fn lemma_listed_walk(g: Seq<Seq<u32>>, start: u32, r: Seq<(u32, u32)>, i: int) -> (p: Seq<u32>)
    requires
        bfs_result(g, start, r),
        0 <= i < r.len(),
    ensures
        walk_between(g, p, start, r[i].0),
        p.len() == r[i].1 + 1,
    decreases r[i].1,
{
    if i == 0 {
        let p = seq![start];
        p
    } else {
        reveal(has_preds);
        assert(has_pred(g, r, i));
        let q = choose|q: int| 0 <= q < r.len() && r[q].1 + 1 == r[i].1 && g[r[q].0 as int].contains(r[i].0);
        let p0 = lemma_listed_walk(g, start, r, q);
        let p = p0.push(r[i].0);
        assert forall|k: int| 0 <= k < p.len() implies #[trigger] p[k] < g.len() by {
            if k < p0.len() {
                assert(p[k] == p0[k]);
            }
        }
        assert forall|k: int| 0 <= k < p.len() - 1 implies g[p[k] as int].contains(#[trigger] p[k + 1]) by {
            if k < p0.len() - 1 {
                assert(p[k] == p0[k] && p[k + 1] == p0[k + 1]);
            } else {
                assert(p[k] == p0.last() && p[k + 1] == r[i].0);
            }
        }
        p
    }
}

/// Labels equal across every edge stay equal along every walk.
proof fn lemma_labels_along_walk(g: Seq<Seq<u32>>, label: Seq<u32>, p: Seq<u32>)
    requires
        is_walk(g, p),
        label.len() == g.len(),
        forall|a: int, k: int| 0 <= a < g.len() && 0 <= k < g[a].len() && g[a][k] < g.len() ==> label[a] == #[trigger] label[g[a][k] as int],
    ensures
        label[p.last() as int] == label[p[0] as int],
    decreases p.len(),
{
    if p.len() > 1 {
        let q = p.drop_last();
        assert forall|i: int| 0 <= i < q.len() implies #[trigger] q[i] < g.len() by {
            assert(q[i] == p[i]);
        }
        assert forall|i: int| 0 <= i < q.len() - 1 implies g[q[i] as int].contains(#[trigger] q[i + 1]) by {
            assert(q[i] == p[i] && q[i + 1] == p[i + 1]);
        }
        lemma_labels_along_walk(g, label, q);
        let m = p.len() - 2;
        let a = p[m];
        assert(g[p[m] as int].contains(p[m + 1]));
        let k = choose|k: int| 0 <= k < g[a as int].len() && g[a as int][k] == p[p.len() - 1];
        assert(label[a as int] == label[g[a as int][k] as int]);
    }
}

/// Whether edge `(x, a)` is among those met before position `k` of list `u`.
pub open spec fn met_before(g: Seq<Seq<u32>>, x: int, a: u32, u: int, k: int) -> bool {
    (x < u && g[x].contains(a)) || (x == u && g[u].subrange(0, k).contains(a))
}

/// The undirected form of an adjacency: each list keeps its neighbors inside the graph
/// and gains the vertices that list it.
pub fn symmetrize(adj: &Vec<Vec<VId>>) -> (r: Vec<Vec<VId>>)
    requires
        adj@.len() <= u32::MAX,
    ensures
        undirected_of(lists_view(r@), lists_view(adj@)),
{
    let n = adj.len();
    let ghost g = lists_view(adj@);
    let mut s: Vec<Vec<VId>> = Vec::new();
    let mut u: usize = 0;
    while u < n
        invariant
            n == adj@.len(),
            g == lists_view(adj@),
            u <= n,
            s@.len() == u,
            forall|a: int, b: u32| 0 <= a < u && b < n ==> (#[trigger] s@[a]@.contains(b) <==> g[a].contains(b)),
            forall|a: int, k: int| 0 <= a < u && 0 <= k < s@[a]@.len() ==> #[trigger] s@[a]@[k] < n,
        decreases n - u,
    {
        let list = &adj[u];
        let mut out: Vec<VId> = Vec::new();
        let mut k: usize = 0;
        while k < list.len()
            invariant
                n == adj@.len(),
                list@ == g[u as int],
                k <= list@.len(),
                forall|b: u32| b < n ==> (#[trigger] out@.contains(b) <==> list@.subrange(0, k as int).contains(b)),
                forall|j: int| 0 <= j < out@.len() ==> #[trigger] out@[j] < n,
            decreases list@.len() - k,
        {
            let w = list[k];
            let ghost before = out@;
            if (w as usize) < n {
                out.push(w);
            }
            proof {
                assert(list@.subrange(0, k + 1) =~= list@.subrange(0, k as int).push(w));
                assert forall|b: u32| b < n implies (#[trigger] out@.contains(b) <==> list@.subrange(0, k + 1).contains(b)) by {
                    let sub = list@.subrange(0, k + 1);
                    if out@.contains(b) {
                        let j = choose|j: int| 0 <= j < out@.len() && out@[j] == b;
                        if j < before.len() {
                            assert(before[j] == b);
                            assert(before.contains(b));
                            assert(list@.subrange(0, k as int).contains(b));
                            let i = choose|i: int| 0 <= i < k && list@.subrange(0, k as int)[i] == b;
                            assert(sub[i] == b);
                        } else {
                            assert(sub[k as int] == b);
                        }
                    }
                    if sub.contains(b) {
                        let i = choose|i: int| 0 <= i < sub.len() && sub[i] == b;
                        if i < k {
                            assert(list@.subrange(0, k as int)[i] == b);
                            assert(before.contains(b));
                            let j = choose|j: int| 0 <= j < before.len() && before[j] == b;
                            assert(out@[j] == b);
                        } else {
                            assert(out@[before.len() as int] == b);
                        }
                    }
                }
            }
            k = k + 1;
        }
        assert(list@.subrange(0, list@.len() as int) =~= list@);
        s.push(out);
        u = u + 1;
    }
    // Add the reverse of every edge.
    let mut u: usize = 0;
    while u < n
        invariant
            n == adj@.len(),
            n <= u32::MAX,
            g == lists_view(adj@),
            u <= n,
            s@.len() == n,
            forall|a: u32, b: u32| a < n && b < n ==> (#[trigger] s@[a as int]@.contains(b) <==> (g[a as int].contains(b) || met_before(g, b as int, a, u as int, 0))),
            forall|a: int, k: int| 0 <= a < n && 0 <= k < s@[a]@.len() ==> #[trigger] s@[a]@[k] < n,
        decreases n - u,
    {
        let list = &adj[u];
        let mut k: usize = 0;
        while k < list.len()
            invariant
                n == adj@.len(),
                n <= u32::MAX,
                g == lists_view(adj@),
                u < n,
                list@ == g[u as int],
                k <= list@.len(),
                s@.len() == n,
                forall|a: u32, b: u32| a < n && b < n ==> (#[trigger] s@[a as int]@.contains(b) <==> (g[a as int].contains(b) || met_before(g, b as int, a, u as int, k as int))),
                forall|a: int, j: int| 0 <= a < n && 0 <= j < s@[a]@.len() ==> #[trigger] s@[a]@[j] < n,
            decreases list@.len() - k,
        {
            let w = list[k];
            let ghost before = s@;
            if (w as usize) < n {
                s[w as usize].push(u as u32);
            }
            proof {
                assert(list@.subrange(0, k + 1) =~= list@.subrange(0, k as int).push(w));
                assert forall|a: u32, b: u32| a < n && b < n implies (#[trigger] s@[a as int]@.contains(b) <==> (g[a as int].contains(b) || met_before(g, b as int, a, u as int, k + 1))) by {
                    let sub0 = list@.subrange(0, k as int);
                    let sub = list@.subrange(0, k + 1);
                    assert(met_before(g, b as int, a, u as int, k + 1) <==> (met_before(g, b as int, a, u as int, k as int) || (b == u && a == w))) by {
                        if b == u {
                            if sub.contains(a) {
                                let i = choose|i: int| 0 <= i < sub.len() && sub[i] == a;
                                if i < k {
                                    assert(sub0[i] == a);
                                }
                            }
                            if sub0.contains(a) {
                                let i = choose|i: int| 0 <= i < sub0.len() && sub0[i] == a;
                                assert(sub[i] == a);
                            }
                            if a == w {
                                assert(sub[k as int] == a);
                            }
                        }
                    }
                    if (w as usize) < n && a == w {
                        assert(s@[a as int]@ == before[a as int]@.push(u as u32));
                        if s@[a as int]@.contains(b) {
                            let j = choose|j: int| 0 <= j < s@[a as int]@.len() && s@[a as int]@[j] == b;
                            if j < before[a as int]@.len() {
                                assert(before[a as int]@[j] == b);
                            }
                        }
                        if before[a as int]@.contains(b) {
                            let j = choose|j: int| 0 <= j < before[a as int]@.len() && before[a as int]@[j] == b;
                            assert(s@[a as int]@[j] == b);
                        }
                        if b == u {
                            assert(s@[a as int]@[before[a as int]@.len() as int] == b);
                        }
                    } else {
                        assert(s@[a as int] == before[a as int]);
                    }
                }
                assert forall|a: int, j: int| 0 <= a < n && 0 <= j < s@[a]@.len() implies #[trigger] s@[a]@[j] < n by {
                    if (w as usize) < n && a == w && j == before[a]@.len() {
                    } else if (w as usize) < n && a == w {
                        assert(s@[a]@[j] == before[a]@[j]);
                    } else {
                        assert(s@[a] == before[a]);
                    }
                }
            }
            k = k + 1;
        }
        proof {
            assert(list@.subrange(0, list@.len() as int) =~= list@);
            assert forall|a: u32, b: u32| a < n && b < n implies (met_before(g, b as int, a, u as int, list@.len() as int) <==> met_before(g, b as int, a, u + 1, 0)) by {
                assert(g[u as int].subrange(0, 0) =~= Seq::<u32>::empty());
            }
        }
        u = u + 1;
    }
    proof {
        let sv = lists_view(s@);
        assert forall|a: u32, b: u32| a < g.len() && b < g.len() implies (#[trigger] sv[a as int].contains(b) <==> (g[a as int].contains(b) || g[b as int].contains(a))) by {
            assert(sv[a as int] == s@[a as int]@);
        }
        assert forall|a: int, k: int| 0 <= a < sv.len() && 0 <= k < sv[a].len() implies #[trigger] sv[a][k] < g.len() by {
            assert(sv[a] == s@[a]@);
        }
    }
    s
}

/// Whether `p` is a walk in `g` that may follow edges either way.
pub open spec fn und_walk(g: Seq<Seq<u32>>, p: Seq<u32>) -> bool {
    &&& p.len() >= 1
    &&& forall|i: int| 0 <= i < p.len() ==> #[trigger] p[i] < g.len()
    &&& forall|i: int| 0 <= i < p.len() - 1 ==> (g[p[i] as int].contains(#[trigger] p[i + 1]) || g[p[i + 1] as int].contains(p[i]))
}

/// Whether `a` and `b` are in the same weakly connected component of `g`.
pub open spec fn und_connected(g: Seq<Seq<u32>>, a: u32, b: u32) -> bool {
    exists|p: Seq<u32>| #[trigger] und_walk(g, p) && p[0] == a && p.last() == b
}

proof fn lemma_walk_und(sg: Seq<Seq<u32>>, g: Seq<Seq<u32>>, p: Seq<u32>)
    requires
        undirected_of(sg, g),
    ensures
        is_walk(sg, p) <==> und_walk(g, p),
{
    if is_walk(sg, p) {
        assert forall|i: int| 0 <= i < p.len() - 1 implies (g[p[i] as int].contains(#[trigger] p[i + 1]) || g[p[i + 1] as int].contains(p[i])) by {
            assert(sg[p[i] as int].contains(p[i + 1]));
            assert(p[i] < g.len() && p[i + 1] < g.len());
        }
    }
    if und_walk(g, p) {
        assert forall|i: int| 0 <= i < p.len() - 1 implies sg[p[i] as int].contains(#[trigger] p[i + 1]) by {
            assert(p[i] < g.len() && p[i + 1] < g.len());
        }
    }
}

proof fn lemma_undirected_symmetric(sg: Seq<Seq<u32>>, g: Seq<Seq<u32>>)
    requires
        undirected_of(sg, g),
    ensures
        symmetric(sg),
{
}

/// Labels of the labeled vertices: a label is a labeled vertex that labels itself and
/// reaches the vertex; the neighbors of a labeled vertex carry its label.
pub open spec fn labels_ok(sg: Seq<Seq<u32>>, labeled: Seq<bool>, label: Seq<u32>) -> bool {
    &&& labeled.len() == sg.len()
    &&& label.len() == sg.len()
    &&& forall|x: int| 0 <= x < sg.len() && #[trigger] labeled[x] ==> {
        &&& label[x] < sg.len()
        &&& labeled[label[x] as int]
        &&& label[label[x] as int] == label[x]
        &&& connected(sg, label[x], x as u32)
    }
    &&& forall|x: int, k: int| 0 <= x < sg.len() && labeled[x] && 0 <= k < sg[x].len() ==> labeled[#[trigger] sg[x][k] as int] && label[sg[x][k] as int] == label[x]
}

proof fn lemma_labeled_along(sg: Seq<Seq<u32>>, labeled: Seq<bool>, label: Seq<u32>, p: Seq<u32>)
    requires
        labels_ok(sg, labeled, label),
        is_walk(sg, p),
        labeled[p[0] as int],
    ensures
        labeled[p.last() as int],
        label[p.last() as int] == label[p[0] as int],
    decreases p.len(),
{
    if p.len() > 1 {
        let q = p.drop_last();
        assert forall|i: int| 0 <= i < q.len() implies #[trigger] q[i] < sg.len() by {
            assert(q[i] == p[i]);
        }
        assert forall|i: int| 0 <= i < q.len() - 1 implies sg[q[i] as int].contains(#[trigger] q[i + 1]) by {
            assert(q[i] == p[i] && q[i + 1] == p[i + 1]);
        }
        lemma_labeled_along(sg, labeled, label, q);
        let m = p.len() - 2;
        assert(sg[p[m] as int].contains(p[m + 1]));
        let k = choose|k: int| 0 <= k < sg[p[m] as int].len() && sg[p[m] as int][k] == p[m + 1];
        assert(labeled[sg[p[m] as int][k] as int]);
    }
}

/// Whether `y` is among the first `j` vertices listed.
pub open spec fn in_prefix(r: Seq<(u32, u32)>, j: int, y: int) -> bool {
    exists|i: int| 0 <= i < j && r[i].0 == y
}

proof fn lemma_new_component(
    sg: Seq<Seq<u32>>,
    g: Seq<Seq<u32>>,
    labeled: Seq<bool>,
    label: Seq<u32>,
    v: u32,
    r: Seq<(u32, u32)>,
    labeled2: Seq<bool>,
    label2: Seq<u32>,
)
    requires
        undirected_of(sg, g),
        labels_ok(sg, labeled, label),
        v < sg.len(),
        !labeled[v as int],
        bfs_result(sg, v, r),
        labeled2.len() == sg.len(),
        label2.len() == sg.len(),
        forall|y: int| 0 <= y < sg.len() ==> #[trigger] labeled2[y] == (labeled[y] || in_prefix(r, r.len() as int, y)),
        forall|y: int| 0 <= y < sg.len() ==> #[trigger] label2[y] == if in_prefix(r, r.len() as int, y) { v } else { label[y] },
    ensures
        labels_ok(sg, labeled2, label2),
        labeled2[v as int],
{
    let n = sg.len() as int;
    lemma_undirected_symmetric(sg, g);
    // No listed vertex was labeled: it would label `v` through a walk back to it.
    assert forall|i: int| 0 <= i < r.len() implies !labeled[#[trigger] r[i].0 as int] by {
        if labeled[r[i].0 as int] {
            let p = lemma_listed_walk(sg, v, r, i);
            lemma_walk_reverse(sg, p);
            lemma_labeled_along(sg, labeled, label, p.reverse());
        }
    }
    assert forall|y: int| 0 <= y < n && in_prefix(r, r.len() as int, y) implies !labeled[y] by {
        let i = choose|i: int| 0 <= i < r.len() && r[i].0 == y;
        assert(!labeled[r[i].0 as int]);
    }
    assert(in_prefix(r, r.len() as int, v as int)) by {
        assert(r[0].0 == v);
    }
    assert forall|x: int| 0 <= x < n && #[trigger] labeled2[x] implies {
        &&& label2[x] < n
        &&& labeled2[label2[x] as int]
        &&& label2[label2[x] as int] == label2[x]
        &&& connected(sg, label2[x], x as u32)
    } by {
        if in_prefix(r, r.len() as int, x) {
            let i = choose|i: int| 0 <= i < r.len() && r[i].0 == x;
            let p = lemma_listed_walk(sg, v, r, i);
            assert(walk_between(sg, p, v, x as u32));
        } else {
            assert(labeled[x]);
            let rho = label[x] as int;
            assert(labeled[rho]);
            assert(!in_prefix(r, r.len() as int, rho));
        }
    }
    assert forall|x: int, k: int| 0 <= x < n && labeled2[x] && 0 <= k < sg[x].len() implies labeled2[#[trigger] sg[x][k] as int] && label2[sg[x][k] as int] == label2[x] by {
        let z = sg[x][k] as int;
        assert(z < n);
        if in_prefix(r, r.len() as int, x) {
            let i = choose|i: int| 0 <= i < r.len() && r[i].0 == x;
            reveal(closed_upto);
            assert(listed_within(r, sg[r[i].0 as int][k], r[i].1 + 1));
            let j = choose|j: int| 0 <= j < r.len() && r[j].0 == sg[r[i].0 as int][k] && r[j].1 <= r[i].1 + 1;
            assert(in_prefix(r, r.len() as int, z));
        } else {
            assert(labeled[x]);
            assert(labeled[z] && label[z] == label[x]);
            assert(!in_prefix(r, r.len() as int, z));
        }
    }
}

/// The weakly connected components of `adj` (edges taken either way): one label per
/// vertex, equal for two vertices exactly when a walk along edges, followed either way,
/// joins them. Each label is a vertex of its component.
pub fn wcc(adj: &Vec<Vec<VId>>) -> (r: Vec<u32>)
    requires
        adj@.len() <= u32::MAX,
    ensures
        r@.len() == adj@.len(),
        forall|a: u32, b: u32| a < adj@.len() && b < adj@.len() ==> (r@[a as int] == r@[b as int]
            <==> und_connected(lists_view(adj@), a, b)),
{
    let n = adj.len();
    let ghost g = lists_view(adj@);
    let s = symmetrize(adj);
    let ghost sg = lists_view(s@);
    let mut labeled: Vec<bool> = Vec::new();
    let mut label: Vec<u32> = Vec::new();
    let mut i: usize = 0;
    while i < n
        invariant
            i <= n,
            labeled@ == Seq::new(i as nat, |x: int| false),
            label@.len() == i,
        decreases n - i,
    {
        labeled.push(false);
        label.push(0);
        assert(labeled@ =~= Seq::new((i + 1) as nat, |x: int| false));
        i = i + 1;
    }
    let mut v: usize = 0;
    while v < n
        invariant
            n == adj@.len(),
            n <= u32::MAX,
            g == lists_view(adj@),
            sg == lists_view(s@),
            s@.len() == n,
            undirected_of(sg, g),
            v <= n,
            labels_ok(sg, labeled@, label@),
            forall|x: int| 0 <= x < v ==> #[trigger] labeled@[x],
        decreases n - v,
    {
        if !labeled[v] {
            let order = bfs(&s, v as u32);
            let ghost old_labeled = labeled@;
            let ghost old_label = label@;
            let mut j: usize = 0;
            while j < order.len()
                invariant
                    n == adj@.len(),
                    sg == lists_view(s@),
                    s@.len() == n,
                    v < n,
                    bfs_result(sg, v as u32, order@),
                    j <= order@.len(),
                    labeled@.len() == n,
                    label@.len() == n,
                    forall|y: int| 0 <= y < n ==> #[trigger] labeled@[y] == (old_labeled[y] || in_prefix(order@, j as int, y)),
                    forall|y: int| 0 <= y < n ==> #[trigger] label@[y] == if in_prefix(order@, j as int, y) { v as u32 } else { old_label[y] },
                decreases order@.len() - j,
            {
                let x = order[j].0;
                let ghost lb = labeled@;
                let ghost ll = label@;
                labeled.set(x as usize, true);
                label.set(x as usize, v as u32);
                proof {
                    assert forall|y: int| 0 <= y < n implies (in_prefix(order@, j + 1, y) <==> (in_prefix(order@, j as int, y) || y == x)) by {
                        if in_prefix(order@, j + 1, y) {
                            let i2 = choose|i2: int| 0 <= i2 < j + 1 && order@[i2].0 == y;
                            if i2 < j {
                                assert(in_prefix(order@, j as int, y));
                            }
                        }
                        if in_prefix(order@, j as int, y) {
                            let i2 = choose|i2: int| 0 <= i2 < j && order@[i2].0 == y;
                            assert(0 <= i2 < j + 1 && order@[i2].0 == y);
                        }
                        if y == x {
                            assert(order@[j as int].0 == y);
                        }
                    }
                    assert forall|y: int| 0 <= y < n implies #[trigger] labeled@[y] == (old_labeled[y] || in_prefix(order@, j + 1, y)) by {
                        if y != x {
                            assert(labeled@[y] == lb[y]);
                        }
                    }
                    assert forall|y: int| 0 <= y < n implies #[trigger] label@[y] == if in_prefix(order@, j + 1, y) { v as u32 } else { old_label[y] } by {
                        if y != x {
                            assert(label@[y] == ll[y]);
                        }
                    }
                }
                j = j + 1;
            }
            proof {
                lemma_new_component(sg, g, old_labeled, old_label, v as u32, order@, labeled@, label@);
                assert forall|x: int| 0 <= x < v + 1 implies #[trigger] labeled@[x] by {
                    if x < v {
                        assert(old_labeled[x]);
                    }
                }
            }
        }
        v = v + 1;
    }
    proof {
        lemma_undirected_symmetric(sg, g);
        assert forall|a: u32, b: u32| a < n && b < n implies (label@[a as int] == label@[b as int] <==> und_connected(g, a, b)) by {
            assert(labeled@[a as int] && labeled@[b as int]);
            if und_connected(g, a, b) {
                let p = choose|p: Seq<u32>| und_walk(g, p) && p[0] == a && p.last() == b;
                lemma_walk_und(sg, g, p);
                lemma_labeled_along(sg, labeled@, label@, p);
            }
            if label@[a as int] == label@[b as int] {
                let rho = label@[a as int];
                assert(connected(sg, rho, a));
                assert(connected(sg, rho, b));
                let pa = choose|p: Seq<u32>| walk_between(sg, p, rho, a);
                let pb = choose|p: Seq<u32>| walk_between(sg, p, rho, b);
                lemma_walk_reverse(sg, pa);
                lemma_walk_concat(sg, pa.reverse(), pb);
                let w = pa.reverse() + pb.drop_first();
                lemma_walk_und(sg, g, w);
                assert(und_walk(g, w) && w[0] == a && w.last() == b);
            }
        }
    }
    label
}

} // verus!
